//! Parsing one tokenized command record into an allocator operation.
//!
//! A record is a verb with a fixed-arity argument list.  Six verbs are
//! recognized; anything else is an unknown command.  A record that
//! fails arity or number parsing is malformed and reported, never
//! acted on.  The command source itself (reading lines, splitting them
//! into tokens, printing outcomes) stays outside the library.

use vstd::prelude::*;
use vstd::slice::{slice_index_get, slice_to_vec};
use vstd::utf8::encode_utf8;

verus! {

/// One allocator operation, as the command language names them.
#[derive(Clone, Debug, PartialEq, Eq)]
pub enum Command {
    /// `INSERT size data`: allocate `size` bytes holding `data`.
    Insert { size: usize, data: Vec<u8> },
    /// `DELETE id`: free the allocation.
    Delete { id: usize },
    /// `FIND id`: peek at the allocation's bytes.
    Find { id: usize },
    /// `READ id`: display the allocation's bytes.
    Read { id: usize },
    /// `UPDATE id data`: overwrite the allocation's first bytes.
    Update { id: usize, data: Vec<u8> },
    /// `DUMP`: report every free and allocated block.
    Dump,
}

/// The mathematical image of a [`Command`]: data as a byte sequence.
pub enum CommandModel {
    Insert { size: usize, data: Seq<u8> },
    Delete { id: usize },
    Find { id: usize },
    Read { id: usize },
    Update { id: usize, data: Seq<u8> },
    Dump,
}

/// The outcome of parsing one record.
#[derive(Clone, Debug, PartialEq, Eq)]
pub enum Parsed {
    /// No verb at all: the record is silently skipped.
    Empty,
    /// Bad arity, or an argument that is not a number: reported, no
    /// operation runs.
    Malformed,
    /// A verb outside the table: reported, processing continues.
    Unknown,
    /// A well-formed operation.
    Cmd(Command),
}

/// The mathematical image of a [`Parsed`].
pub enum ParsedModel {
    Empty,
    Malformed,
    Unknown,
    Cmd(CommandModel),
}

impl View for Command {
    type V = CommandModel;

    open spec fn view(&self) -> CommandModel {
        match self {
            Command::Insert { size, data } => CommandModel::Insert { size: *size, data: data@ },
            Command::Delete { id } => CommandModel::Delete { id: *id },
            Command::Find { id } => CommandModel::Find { id: *id },
            Command::Read { id } => CommandModel::Read { id: *id },
            Command::Update { id, data } => CommandModel::Update { id: *id, data: data@ },
            Command::Dump => CommandModel::Dump,
        }
    }
}

impl View for Parsed {
    type V = ParsedModel;

    open spec fn view(&self) -> ParsedModel {
        match self {
            Parsed::Empty => ParsedModel::Empty,
            Parsed::Malformed => ParsedModel::Malformed,
            Parsed::Unknown => ParsedModel::Unknown,
            Parsed::Cmd(c) => ParsedModel::Cmd(c@),
        }
    }
}

/// `c` is an ASCII decimal digit.
pub open spec fn is_ascii_digit(c: u8) -> bool {
    48 <= c <= 57
}

/// Every byte of `s` is an ASCII decimal digit.
pub open spec fn all_digits(s: Seq<u8>) -> bool {
    forall|i: int| 0 <= i < s.len() ==> is_ascii_digit(#[trigger] s[i])
}

/// The decimal value `s` denotes, read most significant digit first.
pub open spec fn dec_value(s: Seq<u8>) -> int
    decreases s.len(),
{
    if s.len() == 0 {
        0
    } else {
        dec_value(s.drop_last()) * 10 + (s.last() - 48)
    }
}

/// The numeric reading of a token: some digits and nothing else,
/// denoting a value that fits a `usize`.
pub open spec fn parse_usize_spec(s: Seq<u8>) -> Option<usize> {
    if s.len() > 0 && all_digits(s) && dec_value(s) <= usize::MAX {
        Option::Some(dec_value(s) as usize)
    } else {
        Option::None
    }
}

proof fn lemma_dec_value_nonneg(s: Seq<u8>)
    requires
        all_digits(s),
    ensures
        dec_value(s) >= 0,
    decreases s.len(),
{
    if s.len() > 0 {
        assert(all_digits(s.drop_last())) by {
            assert(forall|i: int|
                0 <= i < s.drop_last().len() ==> #[trigger] s.drop_last()[i] == s[i]);
        }
        lemma_dec_value_nonneg(s.drop_last());
        assert(is_ascii_digit(s.last()));
    }
}

proof fn lemma_dec_value_prefix(s: Seq<u8>, k: int)
    requires
        all_digits(s),
        0 <= k <= s.len(),
    ensures
        dec_value(s.take(k)) <= dec_value(s),
    decreases s.len() - k,
{
    if k == s.len() {
        assert(s.take(k) =~= s);
    } else {
        lemma_dec_value_prefix(s, k + 1);
        assert(s.take(k + 1).drop_last() =~= s.take(k));
        assert(s.take(k + 1).last() == s[k]);
        assert(all_digits(s.take(k))) by {
            assert(forall|i: int| 0 <= i < k ==> #[trigger] s.take(k)[i] == s[i]);
        }
        lemma_dec_value_nonneg(s.take(k));
        assert(is_ascii_digit(s[k]));
        assert(dec_value(s.take(k + 1)) == dec_value(s.take(k)) * 10 + (s.take(k + 1).last()
            - 48));
        assert(dec_value(s.take(k)) * 10 >= dec_value(s.take(k)));
    }
}

/// Parses an unsigned decimal integer: digits only, no sign, no
/// grouping, and no value beyond `usize::MAX`.
pub fn parse_usize(t: &str) -> (r: Option<usize>)
    ensures
        r == parse_usize_spec(encode_utf8(t@)),
{
    let bs: &[u8] = t.as_bytes();
    let n = bs.len();
    if n == 0 {
        return None;
    }
    let mut acc: u128 = 0;
    let mut i: usize = 0;
    while i < n
        invariant
            0 < n == bs@.len(),
            bs@ == encode_utf8(t@),
            i <= n,
            all_digits(bs@.take(i as int)),
            acc == dec_value(bs@.take(i as int)),
            acc <= usize::MAX,
        decreases n - i,
    {
        let c: u8 = *slice_index_get(bs, i);
        if c < 48 || c > 57 {
            proof {
                assert(!all_digits(bs@)) by {
                    assert(bs@[i as int] == c && !is_ascii_digit(c));
                }
            }
            return None;
        }
        proof {
            assert(bs@.take(i + 1).drop_last() =~= bs@.take(i as int));
            assert(bs@.take(i + 1).last() == c);
            assert(all_digits(bs@.take(i + 1))) by {
                assert(forall|q: int|
                    0 <= q < i ==> #[trigger] bs@.take(i + 1)[q] == bs@.take(i as int)[q]);
                assert(bs@.take(i + 1)[i as int] == c);
            }
        }
        acc = acc * 10 + ((c - 48) as u128);
        if acc > usize::MAX as u128 {
            proof {
                if all_digits(bs@) {
                    lemma_dec_value_prefix(bs@, i + 1);
                }
            }
            return None;
        }
        i = i + 1;
    }
    proof {
        assert(bs@.take(n as int) =~= bs@);
    }
    Some(acc as usize)
}

/// The bytes a data token denotes: its UTF-8 encoding.
pub fn token_to_bytes(t: &String) -> (r: Vec<u8>)
    ensures
        r@ == encode_utf8(t@),
{
    slice_to_vec(t.as_str().as_bytes())
}

/// The verb table: what one record of tokens means.  An empty record
/// is skipped; `INSERT` and `UPDATE` take a number and a data token;
/// `DELETE` and `FIND` take a number; `READ` takes exactly one
/// argument; `DUMP` takes none; any other verb is unknown.  A missing
/// or non-numeric argument makes the record malformed.
pub open spec fn parse_command_spec(tokens: Seq<String>) -> ParsedModel {
    if tokens.len() == 0 {
        ParsedModel::Empty
    } else {
        let verb = tokens[0]@;
        if verb == "INSERT"@ {
            if tokens.len() < 3 {
                ParsedModel::Malformed
            } else {
                match parse_usize_spec(encode_utf8(tokens[1]@)) {
                    Option::Some(size) => ParsedModel::Cmd(
                        CommandModel::Insert { size, data: encode_utf8(tokens[2]@) },
                    ),
                    Option::None => ParsedModel::Malformed,
                }
            }
        } else if verb == "DELETE"@ {
            if tokens.len() < 2 {
                ParsedModel::Malformed
            } else {
                match parse_usize_spec(encode_utf8(tokens[1]@)) {
                    Option::Some(id) => ParsedModel::Cmd(CommandModel::Delete { id }),
                    Option::None => ParsedModel::Malformed,
                }
            }
        } else if verb == "FIND"@ {
            if tokens.len() < 2 {
                ParsedModel::Malformed
            } else {
                match parse_usize_spec(encode_utf8(tokens[1]@)) {
                    Option::Some(id) => ParsedModel::Cmd(CommandModel::Find { id }),
                    Option::None => ParsedModel::Malformed,
                }
            }
        } else if verb == "READ"@ {
            if tokens.len() != 2 {
                ParsedModel::Malformed
            } else {
                match parse_usize_spec(encode_utf8(tokens[1]@)) {
                    Option::Some(id) => ParsedModel::Cmd(CommandModel::Read { id }),
                    Option::None => ParsedModel::Malformed,
                }
            }
        } else if verb == "UPDATE"@ {
            if tokens.len() < 3 {
                ParsedModel::Malformed
            } else {
                match parse_usize_spec(encode_utf8(tokens[1]@)) {
                    Option::Some(id) => ParsedModel::Cmd(
                        CommandModel::Update { id, data: encode_utf8(tokens[2]@) },
                    ),
                    Option::None => ParsedModel::Malformed,
                }
            }
        } else if verb == "DUMP"@ {
            ParsedModel::Cmd(CommandModel::Dump)
        } else {
            ParsedModel::Unknown
        }
    }
}

/// Parses one record of whitespace-split tokens into the operation it
/// requests, exactly as [`parse_command_spec`] reads it.
pub fn parse_command(tokens: &Vec<String>) -> (r: Parsed)
    ensures
        r@ == parse_command_spec(tokens@),
{
    if tokens.len() == 0 {
        return Parsed::Empty;
    }
    let verb: &String = &tokens[0];
    if *verb == "INSERT".to_owned() {
        if tokens.len() < 3 {
            return Parsed::Malformed;
        }
        match parse_usize(tokens[1].as_str()) {
            Some(size) => Parsed::Cmd(Command::Insert { size, data: token_to_bytes(&tokens[2]) }),
            None => Parsed::Malformed,
        }
    } else if *verb == "DELETE".to_owned() {
        if tokens.len() < 2 {
            return Parsed::Malformed;
        }
        match parse_usize(tokens[1].as_str()) {
            Some(id) => Parsed::Cmd(Command::Delete { id }),
            None => Parsed::Malformed,
        }
    } else if *verb == "FIND".to_owned() {
        if tokens.len() < 2 {
            return Parsed::Malformed;
        }
        match parse_usize(tokens[1].as_str()) {
            Some(id) => Parsed::Cmd(Command::Find { id }),
            None => Parsed::Malformed,
        }
    } else if *verb == "READ".to_owned() {
        if tokens.len() != 2 {
            return Parsed::Malformed;
        }
        match parse_usize(tokens[1].as_str()) {
            Some(id) => Parsed::Cmd(Command::Read { id }),
            None => Parsed::Malformed,
        }
    } else if *verb == "UPDATE".to_owned() {
        if tokens.len() < 3 {
            return Parsed::Malformed;
        }
        match parse_usize(tokens[1].as_str()) {
            Some(id) => Parsed::Cmd(Command::Update { id, data: token_to_bytes(&tokens[2]) }),
            None => Parsed::Malformed,
        }
    } else if *verb == "DUMP".to_owned() {
        Parsed::Cmd(Command::Dump)
    } else {
        Parsed::Unknown
    }
}

} // verus!
