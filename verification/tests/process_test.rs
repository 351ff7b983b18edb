use scheduler::process::text::{parse_instruction, parse_number, render_output};
use scheduler::process::{
    handle_instruction, handle_instruction_vector, interpret, parse_script, run_script,
    Instruction,
};
use scheduler::scheduler::Scheduler;

fn words(line: &str) -> Vec<Vec<u8>> {
    line.split_whitespace()
        .map(|word| word.as_bytes().to_vec())
        .collect()
}

fn lines(text: &str) -> Vec<Vec<Vec<u8>>> {
    text.lines().map(words).collect()
}

#[test]
fn numbers_are_read_as_decimal() {
    assert_eq!(parse_number(b"0"), Some(0));
    assert_eq!(parse_number(b"7"), Some(7));
    assert_eq!(parse_number(b"15"), Some(15));
    assert_eq!(parse_number(b"007"), Some(7));
    assert_eq!(parse_number(b"+3"), Some(3));
    assert_eq!(parse_number(b"-1"), Some(-1));
    assert_eq!(parse_number(b"-0"), Some(0));
    assert_eq!(parse_number(b"2147483647"), Some(i32::MAX));
    assert_eq!(parse_number(b"-2147483648"), Some(i32::MIN));
    assert_eq!(parse_number(b"+0000000000002147483647"), Some(i32::MAX));
}

#[test]
fn what_is_no_number_is_refused() {
    assert_eq!(parse_number(b""), None);
    assert_eq!(parse_number(b"+"), None);
    assert_eq!(parse_number(b"-"), None);
    assert_eq!(parse_number(b"--1"), None);
    assert_eq!(parse_number(b"+-1"), None);
    assert_eq!(parse_number(b"1-"), None);
    assert_eq!(parse_number(b"12a"), None);
    assert_eq!(parse_number(b"a12"), None);
    assert_eq!(parse_number(b" 1"), None);
    assert_eq!(parse_number(b"1 "), None);
    assert_eq!(parse_number(b"1.0"), None);
    assert_eq!(parse_number(b"0x10"), None);
    assert_eq!(parse_number(b"2147483648"), None);
    assert_eq!(parse_number(b"-2147483649"), None);
    assert_eq!(parse_number(b"99999999999999999999999999"), None);
    assert_eq!(parse_number(b"-99999999999999999999999999"), None);
    assert_eq!(parse_number(b"99999999999999999999999999x"), None);
    assert_eq!(parse_number("١".as_bytes()), None);
}

#[test]
fn numbers_are_read_as_the_standard_library_reads_them() {
    let samples: [&str; 16] = [
        "", "+", "-", "0", "-0", "+0", "12", "-12", "+12", "2147483647", "2147483648",
        "-2147483648", "-2147483649", "1_000", "٣", "00000000000000000000001",
    ];
    for sample in samples {
        assert_eq!(parse_number(sample.as_bytes()), sample.parse::<i32>().ok());
    }
}

#[test]
fn lines_are_read_as_instructions() {
    assert_eq!(parse_instruction(&words("in")), Some(Instruction::Init));
    assert_eq!(parse_instruction(&words("to")), Some(Instruction::Timeout));
    assert_eq!(parse_instruction(&words("cr 1")), Some(Instruction::Create(1)));
    assert_eq!(parse_instruction(&words("cr -1")), Some(Instruction::Create(-1)));
    assert_eq!(parse_instruction(&words("de 12")), Some(Instruction::Destroy(12)));
    assert_eq!(parse_instruction(&words("rq 3 2")), Some(Instruction::Request(3, 2)));
    assert_eq!(parse_instruction(&words("rl 0 1")), Some(Instruction::Release(0, 1)));
    // what follows the arguments is not looked at
    assert_eq!(parse_instruction(&words("in 1 2 3")), Some(Instruction::Init));
    assert_eq!(parse_instruction(&words("cr 2 x")), Some(Instruction::Create(2)));
    assert_eq!(parse_instruction(&words("rq 1 1 1")), Some(Instruction::Request(1, 1)));
    // what is no mnemonic is the unknown instruction, whatever follows
    assert_eq!(parse_instruction(&words("xx")), Some(Instruction::Unknown));
    assert_eq!(parse_instruction(&words("CR 1")), Some(Instruction::Unknown));
    assert_eq!(parse_instruction(&words("c 1")), Some(Instruction::Unknown));
    assert_eq!(parse_instruction(&words("cre 1")), Some(Instruction::Unknown));
    assert_eq!(parse_instruction(&words("init")), Some(Instruction::Unknown));
    assert_eq!(parse_instruction(&words("1 cr")), Some(Instruction::Unknown));
    assert_eq!(parse_instruction(&words("xx y")), Some(Instruction::Unknown));
}

#[test]
fn lines_that_lack_an_argument_are_refused() {
    assert_eq!(parse_instruction(&words("")), None);
    assert_eq!(parse_instruction(&words("cr")), None);
    assert_eq!(parse_instruction(&words("de")), None);
    assert_eq!(parse_instruction(&words("rq")), None);
    assert_eq!(parse_instruction(&words("rq 1")), None);
    assert_eq!(parse_instruction(&words("rl 1")), None);
    assert_eq!(parse_instruction(&words("cr x")), None);
    assert_eq!(parse_instruction(&words("cr 1x")), None);
    assert_eq!(parse_instruction(&words("de 99999999999")), None);
    assert_eq!(parse_instruction(&words("rq x 1")), None);
    assert_eq!(parse_instruction(&words("rq 1 x")), None);
    assert_eq!(parse_instruction(&words("rl 1 -")), None);
}

#[test]
fn one_instruction_at_a_time() {
    let mut scheduler = Scheduler::new();
    assert_eq!(handle_instruction(&mut scheduler, Instruction::Create(2)), Some(1));
    assert_eq!(handle_instruction(&mut scheduler, Instruction::Request(3, 3)), Some(1));
    assert_eq!(handle_instruction(&mut scheduler, Instruction::Unknown), None);
    assert_eq!(handle_instruction(&mut scheduler, Instruction::Release(3, 2)), None);
    assert_eq!(handle_instruction(&mut scheduler, Instruction::Create(2)), Some(1));
    assert_eq!(handle_instruction(&mut scheduler, Instruction::Timeout), Some(2));
    assert_eq!(handle_instruction(&mut scheduler, Instruction::Request(3, 1)), Some(1));
    assert_eq!(handle_instruction(&mut scheduler, Instruction::Release(3, 3)), Some(1));
    assert_eq!(scheduler.ready_list, [vec![0], Vec::new(), vec![1, 2]]);
    assert_eq!(handle_instruction(&mut scheduler, Instruction::Destroy(0)), None);
    assert_eq!(handle_instruction(&mut scheduler, Instruction::Destroy(1)), Some(0));
    assert_eq!(handle_instruction(&mut scheduler, Instruction::Create(0)), Some(0));
    assert_eq!(handle_instruction(&mut scheduler, Instruction::Init), Some(0));
    assert_eq!(scheduler.ready_list, [vec![0], Vec::new(), Vec::new()]);
}

#[test]
fn a_batch_starts_from_the_reset() {
    let mut scheduler = Scheduler::new();
    scheduler.create(2);
    scheduler.request(3, 3);

    let batch = vec![
        Instruction::Create(1),
        Instruction::Create(2),
        Instruction::Request(3, 3),
        Instruction::Timeout,
        Instruction::Unknown,
        Instruction::Request(3, 3),
        Instruction::Destroy(1),
        Instruction::Destroy(2),
        Instruction::Release(3, 3),
    ];
    let output = handle_instruction_vector(&mut scheduler, &batch);
    assert_eq!(
        output,
        vec![
            Some(1),
            Some(2),
            Some(2),
            Some(2),
            None,
            Some(1),
            Some(0),
            None,
            None
        ]
    );
    assert_eq!(scheduler.running_pid, 0);
    assert_eq!(scheduler.ready_list, [vec![0], Vec::new(), Vec::new()]);

    // the same batch gives the same results, whatever was before
    assert_eq!(handle_instruction_vector(&mut scheduler, &batch), output);
    // and no instruction gives no result
    assert_eq!(handle_instruction_vector(&mut scheduler, &Vec::new()), Vec::new());
    assert_eq!(scheduler.running_pid, 0);
}

#[test]
fn a_reset_in_a_batch_starts_over() {
    let mut scheduler = Scheduler::new();
    let batch = vec![
        Instruction::Create(2),
        Instruction::Request(0, 1),
        Instruction::Init,
        Instruction::Init,
        Instruction::Request(0, 1),
        Instruction::Create(1),
        Instruction::Request(0, 1),
    ];
    assert_eq!(
        handle_instruction_vector(&mut scheduler, &batch),
        vec![Some(1), Some(1), Some(0), Some(0), None, Some(1), Some(1)]
    );
}

#[test]
fn blank_lines_part_the_batches() {
    let script = lines("cr 1\nto\n\n\n   \nrq 1 1\n\nin\nxx\n");
    assert_eq!(
        parse_script(&script),
        Some(vec![
            vec![Instruction::Create(1), Instruction::Timeout],
            vec![Instruction::Request(1, 1)],
            vec![Instruction::Init, Instruction::Unknown],
        ])
    );
    assert_eq!(parse_script(&lines("")), Some(Vec::new()));
    assert_eq!(parse_script(&lines("\n\n\n")), Some(Vec::new()));
    assert_eq!(
        parse_script(&lines("\n\nto")),
        Some(vec![vec![Instruction::Timeout]])
    );
    assert_eq!(
        parse_script(&lines("to\n\n")),
        Some(vec![vec![Instruction::Timeout]])
    );
    assert_eq!(
        parse_script(&lines("to\nto\n\nto")),
        Some(vec![
            vec![Instruction::Timeout, Instruction::Timeout],
            vec![Instruction::Timeout]
        ])
    );
}

#[test]
fn one_bad_line_spoils_the_script() {
    assert_eq!(parse_script(&lines("cr 1\ncr\n\nto")), None);
    assert_eq!(parse_script(&lines("cr 1\n\nrq 1\n")), None);
    assert_eq!(parse_script(&lines("de x")), None);
    assert_eq!(parse_script(&lines("to\n\nto\n\nrl 1 1 1\nrl 1")), None);
    assert_eq!(interpret(&lines("cr 1\ncr\n\nto")), None);
}

#[test]
fn batches_do_not_see_each_other() {
    let script = vec![
        vec![Instruction::Create(2), Instruction::Request(3, 3)],
        Vec::new(),
        vec![Instruction::Create(1), Instruction::Request(3, 3), Instruction::Release(3, 3)],
        vec![Instruction::Release(3, 3), Instruction::Timeout],
    ];
    assert_eq!(
        run_script(&script),
        vec![
            vec![Some(1), Some(1)],
            Vec::new(),
            vec![Some(1), Some(1), Some(1)],
            vec![None, Some(0)],
        ]
    );
    assert_eq!(run_script(&Vec::new()), Vec::<Vec<Option<usize>>>::new());
}

#[test]
fn results_are_written_line_by_line() {
    assert_eq!(render_output(&Vec::new()), b"".to_vec());
    assert_eq!(render_output(&vec![Vec::new()]), b" ".to_vec());
    assert_eq!(render_output(&vec![vec![Some(0)]]), b"0 ".to_vec());
    assert_eq!(render_output(&vec![vec![None]]), b"-1 ".to_vec());
    assert_eq!(
        render_output(&vec![vec![Some(1), None, Some(15), Some(0)]]),
        b"1 -1 15 0 ".to_vec()
    );
    assert_eq!(
        render_output(&vec![vec![Some(1), Some(2)], vec![None], vec![Some(10), Some(9)]]),
        b"1 2\r\n-1\r\n10 9 ".to_vec()
    );
    assert_eq!(
        render_output(&vec![Vec::new(), vec![Some(3)], Vec::new()]),
        b"\r\n3\r\n ".to_vec()
    );
    assert_eq!(
        render_output(&vec![vec![Some(100), Some(1203), Some(18446744073709551615)]]),
        b"100 1203 18446744073709551615 ".to_vec()
    );
}

#[test]
fn a_script_from_text_to_text() {
    let script = "cr 1\ncr 2\nrq 3 3\nto\nxx\nrq 3 3\nde 1\nde 2\nrl 3 3\n\n\
                  cr 3\ncr -1\ncr 0\nto\nrq 0 1\nrl 0 2\nrl 0 1\nde 0\nde 1\n\n\n\
                  in\n";
    assert_eq!(
        interpret(&lines(script)),
        Some(b"1 2 2 2 -1 1 0 -1 -1\r\n-1 -1 0 1 1 -1 1 -1 0\r\n0 ".to_vec())
    );
    assert_eq!(interpret(&lines("")), Some(Vec::new()));
    assert_eq!(interpret(&lines("to")), Some(b"0 ".to_vec()));
}
