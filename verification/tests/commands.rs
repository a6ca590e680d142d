use arena_alloc::command::{Command, Parsed, parse_command, parse_usize};
use arena_alloc::manager::MemoryManager;

fn tokens(line: &str) -> Vec<String> {
    line.split_whitespace().map(|t| t.to_owned()).collect()
}

#[test]
fn numbers_parse_exactly() {
    assert_eq!(parse_usize("0"), Some(0));
    assert_eq!(parse_usize("30"), Some(30));
    assert_eq!(parse_usize("007"), Some(7));
    assert_eq!(parse_usize(""), None);
    assert_eq!(parse_usize("+3"), None);
    assert_eq!(parse_usize("-3"), None);
    assert_eq!(parse_usize("3x"), None);
    assert_eq!(parse_usize("x3"), None);
    assert_eq!(parse_usize("3 "), None);
    assert_eq!(parse_usize("99999999999999999999999999999"), None);
    assert_eq!(parse_usize(&usize::MAX.to_string()), Some(usize::MAX));
}

#[test]
fn records_parse_into_operations() {
    assert_eq!(parse_command(&tokens("")), Parsed::Empty);
    assert_eq!(
        parse_command(&tokens("INSERT 30 A")),
        Parsed::Cmd(Command::Insert { size: 30, data: b"A".to_vec() })
    );
    assert_eq!(parse_command(&tokens("DELETE 4")), Parsed::Cmd(Command::Delete { id: 4 }));
    assert_eq!(parse_command(&tokens("FIND 9")), Parsed::Cmd(Command::Find { id: 9 }));
    assert_eq!(parse_command(&tokens("READ 2")), Parsed::Cmd(Command::Read { id: 2 }));
    assert_eq!(
        parse_command(&tokens("UPDATE 1 zz")),
        Parsed::Cmd(Command::Update { id: 1, data: b"zz".to_vec() })
    );
    assert_eq!(parse_command(&tokens("DUMP")), Parsed::Cmd(Command::Dump));
}

#[test]
fn malformed_records_are_rejected() {
    assert_eq!(parse_command(&tokens("INSERT")), Parsed::Malformed);
    assert_eq!(parse_command(&tokens("INSERT 30")), Parsed::Malformed);
    assert_eq!(parse_command(&tokens("INSERT x A")), Parsed::Malformed);
    assert_eq!(parse_command(&tokens("DELETE")), Parsed::Malformed);
    assert_eq!(parse_command(&tokens("DELETE abc")), Parsed::Malformed);
    assert_eq!(parse_command(&tokens("FIND")), Parsed::Malformed);
    // READ takes exactly one argument
    assert_eq!(parse_command(&tokens("READ")), Parsed::Malformed);
    assert_eq!(parse_command(&tokens("READ 1 2")), Parsed::Malformed);
    assert_eq!(parse_command(&tokens("READ one")), Parsed::Malformed);
    assert_eq!(parse_command(&tokens("UPDATE 1")), Parsed::Malformed);
    assert_eq!(parse_command(&tokens("UPDATE nine z")), Parsed::Malformed);
    assert_eq!(parse_command(&tokens("ERASE 1")), Parsed::Unknown);
    assert_eq!(parse_command(&tokens("insert 1 a")), Parsed::Unknown);
}

fn run(m: &mut MemoryManager, line: &str) -> Option<usize> {
    match parse_command(&tokens(line)) {
        Parsed::Cmd(Command::Insert { size, data }) => {
            assert!(size > 0, "the dispatcher rejects zero-size requests");
            m.insert(size, &data)
        }
        Parsed::Cmd(Command::Delete { id }) => {
            m.delete(id).unwrap();
            None
        }
        other => panic!("unexpected parse in scenario: {:?}", other),
    }
}

#[test]
fn end_to_end_scenario() {
    let mut m = MemoryManager::with_capacity(100);
    // INSERT 30 A -> id 0, block [0, 30)
    assert_eq!(run(&mut m, "INSERT 30 A"), Some(0));
    // INSERT 40 B -> id 1, block [30, 70)
    assert_eq!(run(&mut m, "INSERT 40 B"), Some(1));
    // DELETE 0 frees [0, 30)
    assert_eq!(run(&mut m, "DELETE 0"), None);
    // INSERT 30 C -> id 2 reuses [0, 30) exactly (best fit, exact size)
    assert_eq!(run(&mut m, "INSERT 30 C"), Some(2));
    // DUMP: one free block (size 30, start 70), allocations 1 and 2
    let report = m.dump();
    assert_eq!(report.free_blocks.len(), 1);
    assert_eq!(report.free_blocks[0].size, 30);
    assert_eq!(report.free_blocks[0].start, 70);
    let ids: Vec<usize> = report.allocated_blocks.iter().map(|entry| entry.id).collect();
    assert_eq!(ids, vec![1, 2]);
    assert_eq!(report.allocated_blocks[0].block.start, 30);
    assert_eq!(report.allocated_blocks[0].block.size, 40);
    assert_eq!(report.allocated_blocks[1].block.start, 0);
    assert_eq!(report.allocated_blocks[1].block.size, 30);
    // the stored bytes round-trip, zero-padded
    assert_eq!(m.find(2).unwrap()[0], b'C');
    assert_eq!(m.find(1).unwrap()[0], b'B');
}
