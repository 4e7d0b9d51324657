use bfc::codegen::{generate, Machine};

const HEAD: &str = "#include <bits/stdc++.h>\nint main() {\n    std::vector<int> buffer;\n    size_t ptr = 0;\n";
const TAIL: &str = "    putchar('\\n');\n    return 0;\n}\n";
const LEFT: &str = "    if (ptr == 0) {\n        exit(1);\n    }\n    --ptr;\n";
const PUT: &str = "    putchar(ptr < buffer.size() ? buffer[ptr] : 0);\n";
const WHILE: &str = "    while (ptr < buffer.size() && buffer[ptr]) {\n";
const GROW: &str = "    if (ptr >= buffer.size()) {\n        buffer.resize(ptr + 1);\n    }\n";

#[test]
fn comments_only_generate_head_and_tail() {
    assert_eq!(generate(b"nothing to see here 123"), format!("{}{}", HEAD, TAIL));
    assert_eq!(generate(b""), format!("{}{}", HEAD, TAIL));
}

#[test]
fn each_instruction_has_its_statement() {
    let cases: Vec<(&[u8], String)> = vec![
        (b">", "    ++ptr;\n".to_string()),
        (b"<", LEFT.to_string()),
        (b"+", format!("{}    buffer[ptr]++;\n", GROW)),
        (b"-", format!("{}    buffer[ptr]--;\n", GROW)),
        (b".", PUT.to_string()),
        (
            b",",
            format!(
                "{}    buffer[ptr] = getchar();\n    if (buffer[ptr] == EOF) {{\n        exit(1);\n    }}\n",
                GROW
            ),
        ),
        (b"[", WHILE.to_string()),
        (b"]", "}\n".to_string()),
    ];
    for (program, body) in cases {
        assert_eq!(generate(program), format!("{}{}{}", HEAD, body, TAIL));
    }
}

#[test]
fn loops_become_nested_blocks() {
    let expected = format!(
        "{}{}    buffer[ptr]++;\n{}{}{}    buffer[ptr]--;\n}}\n{}",
        HEAD, GROW, WHILE, PUT, GROW, TAIL
    );
    assert_eq!(generate(b"+ [ . - ]"), expected);
}

#[test]
fn unmatched_brackets_are_not_checked() {
    assert_eq!(generate(b"]"), format!("{}}}\n{}", HEAD, TAIL));
}

#[test]
fn machine_steps_one_byte_at_a_time() {
    let program = b"x>";
    let mut m = Machine::new(program);
    assert!(m.step());
    assert!(m.step());
    assert!(!m.step());
    assert_eq!(m.finish(), format!("{}    ++ptr;\n{}", HEAD, TAIL));
}

#[test]
fn machine_primitives_append() {
    let program = b"";
    let mut m = Machine::new(program);
    m.forward_ptr();
    m.backward_ptr();
    m.inc();
    m.dec();
    m.output();
    m.input();
    m.loop_begin();
    m.loop_end();
    assert_eq!(m.finish(), generate(b"><+-.,[]"));
}
