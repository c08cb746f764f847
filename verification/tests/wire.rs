use chat_relay::wire::{
    append_bytes, byte_is_space, bytes_equal, contains_bytes, copy_range, find_line_end,
    format_delivery, is_leave, leave_command, occurs_here, parse_command, parse_name, rejection,
    split_lines, take_first_line, trim, Command, LineBuffer, NameError, NAME_CAP, NEWLINE,
};

fn text(s: &str) -> Vec<u8> {
    s.as_bytes().to_vec()
}

#[test]
fn delivery_line_has_the_attributed_form() {
    assert_eq!(format_delivery(&text("A"), &text("hello")), text("[A]: hello\n"));
    assert_eq!(format_delivery(&text("bob"), &text("")), text("[bob]: \n"));
    assert_eq!(format_delivery(&text(""), &text("x y")), text("[]: x y\n"));
}

#[test]
fn constants_of_the_protocol() {
    assert_eq!(NEWLINE, b'\n');
    assert_eq!(NAME_CAP, 512);
    assert_eq!(leave_command(), text("/leave"));
    assert_eq!(rejection(), text("Username is already taken\n"));
}

#[test]
fn white_space_bytes() {
    for b in [b' ', b'\t', b'\n', 11u8, 12u8, b'\r'] {
        assert!(byte_is_space(b));
    }
    for b in [0u8, 8u8, 14u8, 31u8, 33u8, b'a', 255u8] {
        assert!(!byte_is_space(b));
    }
}

#[test]
fn trim_drops_surrounding_white_space_only() {
    assert_eq!(trim(&text("  alice \r\n")), text("alice"));
    assert_eq!(trim(&text("a b")), text("a b"));
    assert_eq!(trim(&text("\t a  b \t")), text("a  b"));
    assert_eq!(trim(&text("")), text(""));
    assert_eq!(trim(&text(" \n\t ")), text(""));
    assert_eq!(trim(&text("x")), text("x"));
}

#[test]
fn copy_range_takes_the_bytes_between() {
    let src = text("abcdef");
    assert_eq!(copy_range(&src, 0, 6), text("abcdef"));
    assert_eq!(copy_range(&src, 2, 4), text("cd"));
    assert_eq!(copy_range(&src, 3, 3), text(""));
}

#[test]
fn append_bytes_adds_at_the_end() {
    let mut dst = text("ab");
    append_bytes(&mut dst, &text("cd"));
    assert_eq!(dst, text("abcd"));
    append_bytes(&mut dst, &text(""));
    assert_eq!(dst, text("abcd"));
}

#[test]
fn bytes_equal_compares_contents() {
    assert!(bytes_equal(&text("abc"), &text("abc")));
    assert!(bytes_equal(&text(""), &text("")));
    assert!(!bytes_equal(&text("abc"), &text("abd")));
    assert!(!bytes_equal(&text("abc"), &text("ab")));
}

#[test]
fn occurrence_at_an_offset() {
    assert!(occurs_here(&text("send hi"), &text("send "), 0));
    assert!(!occurs_here(&text("send hi"), &text("send "), 1));
    assert!(occurs_here(&text("abc"), &text("bc"), 1));
    assert!(!occurs_here(&text("abc"), &text("bc"), 2));
    assert!(occurs_here(&text("abc"), &text(""), 3));
    assert!(!occurs_here(&text("abc"), &text(""), 4));
    assert!(!occurs_here(&text("ab"), &text("abc"), 0));
}

#[test]
fn containment_of_a_byte_string() {
    assert!(contains_bytes(&text("bob/leave"), &text("/leave")));
    assert!(contains_bytes(&text("/leave"), &text("/leave")));
    assert!(contains_bytes(&text("x/leavey"), &text("/leave")));
    assert!(!contains_bytes(&text("/leav"), &text("/leave")));
    assert!(!contains_bytes(&text("leave"), &text("/leave")));
    assert!(contains_bytes(&text("abc"), &text("")));
    assert!(contains_bytes(&text(""), &text("")));
    assert!(!contains_bytes(&text(""), &text("a")));
}

#[test]
fn leave_command_is_matched_exactly() {
    assert!(is_leave(&text("/leave")));
    assert!(!is_leave(&text("/leave ")));
    assert!(!is_leave(&text("leave")));
    assert!(!is_leave(&text("/Leave")));
    assert!(!is_leave(&text("")));
}

#[test]
fn first_line_ends_at_newline_or_cap() {
    assert_eq!(take_first_line(&text("alice\nrest"), 512), text("alice"));
    assert_eq!(take_first_line(&text("alice"), 512), text("alice"));
    assert_eq!(take_first_line(&text("alice"), 3), text("ali"));
    assert_eq!(take_first_line(&text("al\nice"), 3), text("al"));
    assert_eq!(take_first_line(&text("abc\n"), 3), text("abc"));
    assert_eq!(take_first_line(&text("\nabc"), 3), text(""));
    assert_eq!(take_first_line(&text("abc"), 0), text(""));
    assert_eq!(take_first_line(&text(""), 5), text(""));
}

#[test]
fn valid_name_is_trimmed() {
    assert_eq!(parse_name(&text("alice\n")), Ok(text("alice")));
    assert_eq!(parse_name(&text("  bob smith \r\n")), Ok(text("bob smith")));
    assert_eq!(parse_name(&text("carol\nignored")), Ok(text("carol")));
    assert_eq!(parse_name(&text("leave")), Ok(text("leave")));
}

#[test]
fn empty_name_is_refused() {
    assert_eq!(parse_name(&text("")), Err(NameError::Empty));
    assert_eq!(parse_name(&text("\n")), Err(NameError::Empty));
    assert_eq!(parse_name(&text("   \t\r\n")), Err(NameError::Empty));
    assert_eq!(parse_name(&text("\nalice")), Err(NameError::Empty));
}

#[test]
fn name_with_the_leave_command_is_refused() {
    assert_eq!(parse_name(&text("/leave\n")), Err(NameError::Reserved));
    assert_eq!(parse_name(&text("bob/leave")), Err(NameError::Reserved));
    assert_eq!(parse_name(&text(" /leaves ")), Err(NameError::Reserved));
}

#[test]
fn name_is_cut_at_the_cap() {
    let long = vec![b'n'; 600];
    assert_eq!(parse_name(&long), Ok(vec![b'n'; 512]));
    let mut late = vec![b'n'; 512];
    late.extend_from_slice(b"/leave");
    assert_eq!(parse_name(&late), Ok(vec![b'n'; 512]));
}

#[test]
fn terminal_send_command() {
    assert_eq!(parse_command(&text("send hello")), Command::Send(text("hello")));
    assert_eq!(parse_command(&text("send hello world\n")), Command::Send(text("hello world")));
    assert_eq!(parse_command(&text("  send  x ")), Command::Send(text(" x")));
    assert_eq!(parse_command(&text("send /leave")), Command::Send(text("/leave")));
}

#[test]
fn terminal_leave_command() {
    assert_eq!(parse_command(&text("leave")), Command::Leave);
    assert_eq!(parse_command(&text(" leave \n")), Command::Leave);
}

#[test]
fn terminal_line_that_is_no_command() {
    assert_eq!(parse_command(&text("")), Command::Invalid);
    assert_eq!(parse_command(&text("send")), Command::Invalid);
    assert_eq!(parse_command(&text("send ")), Command::Invalid);
    assert_eq!(parse_command(&text("sendhello")), Command::Invalid);
    assert_eq!(parse_command(&text("hello")), Command::Invalid);
    assert_eq!(parse_command(&text("leave now")), Command::Invalid);
    assert_eq!(parse_command(&text("/leave")), Command::Invalid);
    assert_eq!(parse_command(&text("Leave")), Command::Invalid);
}

#[test]
fn stream_is_cut_at_its_newlines() {
    assert_eq!(split_lines(&text("a\nbc\nde")), (vec![text("a"), text("bc")], text("de")));
    assert_eq!(split_lines(&text("a\n")), (vec![text("a")], text("")));
    assert_eq!(split_lines(&text("\n\nx")), (vec![text(""), text("")], text("x")));
    assert_eq!(split_lines(&text("no newline")), (vec![], text("no newline")));
    assert_eq!(split_lines(&text("")), (vec![], text("")));
}

#[test]
fn line_end_is_found_from_an_offset() {
    assert_eq!(find_line_end(&text("ab\ncd\n"), 0), 2);
    assert_eq!(find_line_end(&text("ab\ncd\n"), 2), 2);
    assert_eq!(find_line_end(&text("ab\ncd\n"), 3), 5);
    assert_eq!(find_line_end(&text("ab\ncd"), 3), 5);
    assert_eq!(find_line_end(&text("ab"), 2), 2);
}

#[test]
fn line_buffer_joins_chunks() {
    let mut framing = LineBuffer::new();
    assert_eq!(framing.feed(&text("hel")), Vec::<Vec<u8>>::new());
    assert_eq!(framing.feed(&text("lo\nwor")), vec![text("hello")]);
    assert_eq!(framing.feed(&text("ld\n/leave\n")), vec![text("world"), text("/leave")]);
    assert_eq!(framing.feed(&text("")), Vec::<Vec<u8>>::new());
    assert_eq!(framing.feed(&text("\n")), vec![text("")]);
}
