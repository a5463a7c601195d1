use nilang::generator::utils::{pad_lines, space_bottom};

#[test]
fn test_pad_lines() {
    assert_eq!(
        pad_lines(
            &Vec::from(["push %rax".to_string(), "    pop %rax".to_string(), "".to_string(), "    ".to_string()]),
            4,
        ),
        Vec::from([
            "    push %rax".to_string(),
            "        pop %rax".to_string(),
            "".to_string(),
            "        ".to_string(),
        ])
    );
}

#[test]
fn test_space_bottom() {
    assert_eq!(
        space_bottom(&Vec::from(["push %rax".to_string(), "pop %rax".to_string()])),
        Vec::from(["push %rax".to_string(), "pop %rax".to_string(), "".to_string()])
    );
}
