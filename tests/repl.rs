use kernel::framebuffer::Framebuffer;
use kernel::repl::{parse_command, Repl, ReplCommand};

fn chars(s: &str) -> Vec<char> {
    s.chars().collect()
}

#[test]
fn commands_are_parsed_after_trimming() {
    assert_eq!(parse_command(&chars("help")), ReplCommand::Help);
    assert_eq!(parse_command(&chars("  alloc  ")), ReplCommand::Alloc);
    assert_eq!(parse_command(&chars("clear")), ReplCommand::Clear);
    assert_eq!(parse_command(&chars("heap")), ReplCommand::Heap);
    assert_eq!(parse_command(&chars("paging")), ReplCommand::Paging);
    assert_eq!(parse_command(&chars("panic")), ReplCommand::Panic);
    assert_eq!(parse_command(&chars("   ")), ReplCommand::Nothing);
    assert_eq!(parse_command(&chars("echo hi there ")), ReplCommand::Echo(chars("hi there")));
    assert_eq!(parse_command(&chars("echo")), ReplCommand::Unknown);
    assert_eq!(parse_command(&chars("helpme")), ReplCommand::Unknown);
}

#[test]
fn line_editing() {
    let mut fb = Framebuffer::new(vec![0u8; 640 * 480 * 4], 640, 480, 640, 4);
    let mut r = Repl::new(10, 50);
    r.show_prompt(&mut fb);
    for c in "hepl".chars() {
        assert_eq!(r.handle_char(c, &mut fb), ReplCommand::Nothing);
    }
    r.handle_char('\u{8}', &mut fb);
    r.handle_char('\u{8}', &mut fb);
    r.handle_char('l', &mut fb);
    r.handle_char('p', &mut fb);
    assert_eq!(r.handle_char('\n', &mut fb), ReplCommand::Help);
    assert_eq!(r.handle_char('\n', &mut fb), ReplCommand::Nothing);
    assert!(fb.as_bytes().iter().any(|b| *b == 255));
}
