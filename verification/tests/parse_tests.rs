use syscall_monitor::parse::parse_syscall;

#[test]
fn openat_line_gives_openat() {
    let line = "openat(AT_FDCWD, \"/etc/passwd\", O_RDONLY) = 3";
    assert_eq!(parse_syscall(line), Some("openat".to_string()));
}

#[test]
fn empty_line_gives_nothing() {
    assert_eq!(parse_syscall(""), None);
}

#[test]
fn blank_line_gives_nothing() {
    assert_eq!(parse_syscall("   \t  \n"), None);
}

#[test]
fn exit_notice_gives_nothing() {
    assert_eq!(parse_syscall("+++ exited with 0 +++"), None);
}

#[test]
fn signal_notice_gives_nothing() {
    assert_eq!(parse_syscall("--- SIGCHLD {si_signo=SIGCHLD, si_code=CLD_EXITED} ---"), None);
}

#[test]
fn pid_prefix_gives_nothing() {
    assert_eq!(parse_syscall("[pid  4242] read(3, \"\", 4096) = 0"), None);
}

#[test]
fn digit_first_gives_nothing() {
    assert_eq!(parse_syscall("123abc(1)"), None);
}

#[test]
fn underscore_first_gives_nothing() {
    assert_eq!(parse_syscall("_exit(0)"), None);
}

#[test]
fn line_without_paren_gives_nothing() {
    assert_eq!(parse_syscall("strace: Process 4242 attached"), None);
}

#[test]
fn surrounding_whitespace_is_trimmed() {
    assert_eq!(parse_syscall("  \tread(3, \"abc\", 4096) = 3  \r\n"), Some("read".to_string()));
}

#[test]
fn unicode_whitespace_is_trimmed() {
    assert_eq!(parse_syscall("\u{2003}\u{a0}write(1, \"x\", 1) = 1\u{3000}"), Some("write".to_string()));
}

#[test]
fn name_ends_at_first_paren() {
    assert_eq!(parse_syscall("mmap(NULL, 4096, (PROT_READ)) = 0x7f"), Some("mmap".to_string()));
}

#[test]
fn name_keeps_what_stands_before_the_paren() {
    assert_eq!(
        parse_syscall("strace: attach: ptrace(PTRACE_SEIZE, 7): No such process"),
        Some("strace: attach: ptrace".to_string())
    );
}

#[test]
fn name_keeps_inner_whitespace_before_the_paren() {
    assert_eq!(parse_syscall("read (3)"), Some("read ".to_string()));
}

#[test]
fn non_ascii_letter_may_begin_a_name() {
    assert_eq!(parse_syscall("\u{e9}crire(1)"), Some("\u{e9}crire".to_string()));
}

#[test]
fn paren_right_after_first_letter() {
    assert_eq!(parse_syscall("x("), Some("x".to_string()));
}

#[test]
fn resumed_line_gives_nothing() {
    assert_eq!(parse_syscall("<... read resumed>\"\", 4096) = 0"), None);
}

#[test]
fn text_before_the_first_mark() {
    let v: Vec<char> = "ab(c(d".chars().collect();
    assert_eq!(syscall_monitor::parse::text_before(&v, 0, 6, '('), Some("ab".to_string()));
    assert_eq!(syscall_monitor::parse::text_before(&v, 1, 6, '('), Some("b".to_string()));
    assert_eq!(syscall_monitor::parse::text_before(&v, 3, 6, '('), Some("c".to_string()));
    assert_eq!(syscall_monitor::parse::text_before(&v, 2, 6, '('), Some("".to_string()));
}

#[test]
fn text_before_a_mark_that_is_missing() {
    let v: Vec<char> = "ab(c(d".chars().collect();
    assert_eq!(syscall_monitor::parse::text_before(&v, 0, 2, '('), None);
    assert_eq!(syscall_monitor::parse::text_before(&v, 5, 6, '('), None);
    assert_eq!(syscall_monitor::parse::text_before(&v, 3, 3, '('), None);
    assert_eq!(syscall_monitor::parse::text_before(&v, 0, 6, ')'), None);
}
