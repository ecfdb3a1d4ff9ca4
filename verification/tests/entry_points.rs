use windows_args::args::ArgsWtf8;
use windows_args::wtf8like::{IsWtf8Buf, IsWtf8Slice};
use windows_args::{parse_args_via_parse_cmd, Args};
use wtf8::Wtf8Buf;

fn collect(mut args: Args) -> Vec<String> {
    let mut all = Vec::new();
    while let Some(arg) = args.next() {
        all.push(arg);
    }
    all
}

#[test]
fn special_traits() {
    assert_eq!(Args::parse_cmd("a b").next_back(), Some("b".into()));
    assert_eq!(Args::parse_cmd("a b").len(), 2);
}

#[test]
fn args_cmd_differences() {
    assert_eq!(collect(Args::parse_cmd("")), vec!["TEST.EXE".to_string()]);
    assert_eq!(collect(Args::parse_args("")), Vec::<String>::new());

    assert_eq!(
        collect(Args::parse_cmd(r#""abc\"def""#)),
        vec!["abc\\".to_string(), "def".to_string(),
    ]);
    assert_eq!(
        collect(Args::parse_args(r#""abc\"def""#)),
        vec!["abc\"def".to_string()],
    );

    assert_eq!(
        collect(Args::parse_cmd(r#"a "abc\"def""#)),
        vec!["a".to_string(), "abc\"def".to_string()],
    );
    assert_eq!(
        collect(Args::parse_cmd(r#"a "abc\"def""#)),
        vec!["a".to_string(), "abc\"def".to_string()],
    );
}

#[test]
fn parse_cmd_keeps_trailing_backslashes() {
    assert_eq!(
        collect(Args::parse_cmd(r#"me.exe  \\\"#)),
        vec!["me.exe".to_string(), r#"\\\"#.to_string()],
    );
}

#[test]
fn parse_args_keeps_trailing_backslashes() {
    assert_eq!(
        collect(Args::parse_args(r#"file.txt  \\\"#)),
        vec!["file.txt".to_string(), r#"\\\"#.to_string()],
    );
}

#[test]
fn parse_args_reads_quoted_path() {
    let mut args = Args::parse_args(r#"foobar to "C:\Program Files\Hi.txt" now"#);
    assert_eq!(args.next(), Some("foobar".to_string()));
    assert_eq!(args.next(), Some("to".to_string()));
    assert_eq!(args.next(), Some("C:\\Program Files\\Hi.txt".to_string()));
    assert_eq!(args.next(), Some("now".to_string()));
    assert_eq!(args.next(), None);
}

#[test]
fn parse_cmd_reads_quoted_path() {
    let args = Args::parse_cmd(r#"foobar.exe to "C:\Program Files\Hi.txt" now"#);
    assert_eq!(
        collect(args),
        vec![
            "foobar.exe".to_string(),
            "to".to_string(),
            "C:\\Program Files\\Hi.txt".to_string(),
            "now".to_string(),
        ],
    );
}

#[test]
fn doubled_quotes_in_one_argument() {
    assert_eq!(
        collect(Args::parse_args(r#""this is """all""" in the same argument""#)),
        vec!["this is \"all\" in the same argument".to_string()],
    );
}

#[test]
fn parse_args_has_no_executable_name_rule() {
    assert_eq!(collect(Args::parse_args(" test")), vec!["test".to_string()]);
    assert_eq!(collect(Args::parse_args("\u{1}x y")), vec!["\u{1}x".to_string(), "y".to_string()]);
    assert_eq!(collect(Args::parse_args(r#""""#)), vec!["".to_string()]);
    assert_eq!(collect(Args::parse_args("   ")), Vec::<String>::new());
    assert_eq!(collect(Args::parse_cmd("   ")), vec!["".to_string()]);
}

#[test]
fn parse_args_is_parse_cmd_behind_a_command_name() {
    for text in ["", "x", r#""abc\"def""#, " lead", r#"a\\\b d"e f"g h"#, "😅 \"🤦 x\""] {
        let prefixed = format!("a {}", text);
        let mut whole = collect(Args::parse_cmd(&prefixed));
        assert_eq!(whole.remove(0), "a");
        assert_eq!(collect(Args::parse_args(text)), whole);
        let mut behind: ArgsWtf8<Wtf8Buf> = parse_args_via_parse_cmd(text);
        let mut decoded = Vec::new();
        while let Some(arg) = behind.next() {
            decoded.push(arg.into_string().unwrap());
        }
        assert_eq!(decoded, whole);
    }
}

#[test]
fn arguments_come_out_from_both_ends() {
    let mut args = Args::parse_cmd("EXE one two three");
    assert_eq!(args.len(), 4);
    assert_eq!(args.size_hint(), (4, Some(4)));
    assert_eq!(args.next(), Some("EXE".to_string()));
    assert_eq!(args.next_back(), Some("three".to_string()));
    assert_eq!(args.len(), 2);
    assert_eq!(args.size_hint(), (2, Some(2)));
    assert_eq!(args.next_back(), Some("two".to_string()));
    assert_eq!(args.next(), Some("one".to_string()));
    assert_eq!(args.len(), 0);
    assert_eq!(args.next(), None);
    assert_eq!(args.next_back(), None);
    assert_eq!(args.size_hint(), (0, Some(0)));
}

#[test]
fn arguments_that_are_left_can_be_looked_at() {
    let mut args = Args::parse_cmd("EXE one two");
    assert_eq!(format!("{:?}", args.inner_debug()), r#"["EXE", "one", "two"]"#);
    args.next();
    assert_eq!(format!("{:?}", args.inner_debug()), r#"["one", "two"]"#);
    args.next_back();
    args.next_back();
    assert_eq!(format!("{:?}", args.inner_debug()), "[]");
}

#[test]
fn text_outside_the_basic_plane_comes_back_whole() {
    assert_eq!(
        collect(Args::parse_cmd("😅.exe \"🤦 é\" \u{ffff}\u{10000} \u{10ffff}")),
        vec![
            "😅.exe".to_string(),
            "🤦 é".to_string(),
            "\u{ffff}\u{10000}".to_string(),
            "\u{10ffff}".to_string(),
        ],
    );
    assert_eq!(
        collect(Args::parse_args("😅\"\"🤦 \\😅")),
        vec!["😅🤦".to_string(), "\\😅".to_string()],
    );
}

#[test]
fn parse_cmd_twice_gives_the_same_arguments() {
    for text in ["", "a b", r#""x y" z\"#, " 😅"] {
        assert_eq!(collect(Args::parse_cmd(text)), collect(Args::parse_cmd(text)));
        assert_eq!(collect(Args::parse_args(text)), collect(Args::parse_args(text)));
    }
}

#[test]
fn str_encodes_to_utf16() {
    assert_eq!("".encode_wide(), Vec::<u16>::new());
    assert_eq!("a b".encode_wide(), vec![0x61, 0x20, 0x62]);
    assert_eq!("é\u{ffff}".encode_wide(), vec![0xe9, 0xffff]);
    assert_eq!("😅".encode_wide(), vec![0xd83d, 0xde05]);
    assert_eq!("\u{10000}\u{10ffff}".encode_wide(), vec![0xd800, 0xdc00, 0xdbff, 0xdfff]);
}

#[test]
fn buffer_is_built_from_units_and_from_text() {
    let from_units = <Wtf8Buf as IsWtf8Buf>::from_wide(&[0x61, 0xd83d, 0xde05, 0xd800]);
    let units: Vec<u16> = from_units.to_ill_formed_utf16().collect();
    assert_eq!(units, vec![0x61, 0xd83d, 0xde05, 0xd800]);
    let from_text = <Wtf8Buf as IsWtf8Buf>::from_str("a😅");
    let units: Vec<u16> = from_text.to_ill_formed_utf16().collect();
    assert_eq!(units, vec![0x61, 0xd83d, 0xde05]);
}

#[test]
fn code_units_are_their_own_text() {
    let wide: [u16; 5] = [0x61, 0xdaaa, 0x20, 0xd83d, 0xde05];
    assert_eq!(wide[..].encode_wide(), wide.to_vec());
    assert_eq!(<Vec<u16> as IsWtf8Buf>::from_wide(&wide), wide.to_vec());
    assert_eq!(<Vec<u16> as IsWtf8Buf>::from_str("a 😅"), vec![0x61, 0x20, 0xd83d, 0xde05]);
}

#[test]
fn both_kinds_of_buffer_hold_the_same_tokens() {
    let lines: [&[u16]; 4] = [
        &[],
        &[0x61, 0x20, 0x22, 0x62, 0x20, 0xdaaa, 0x22, 0x5c],
        &[0x20, 0xdeee, 0x09, 0xd83d, 0xde05],
        &[0x22, 0x61, 0x22, 0x22, 0x62],
    ];
    for line in lines.iter() {
        let mut raw: ArgsWtf8<Vec<u16>> = ArgsWtf8::parse_cmd(*line);
        let mut portable: ArgsWtf8<Wtf8Buf> = ArgsWtf8::parse_cmd(*line);
        assert_eq!(raw.len(), portable.len());
        while let Some(token) = raw.next() {
            let other: Vec<u16> = portable.next().unwrap().to_ill_formed_utf16().collect();
            assert_eq!(token, other);
        }
        let mut raw: ArgsWtf8<Vec<u16>> = parse_args_via_parse_cmd(*line);
        let mut portable: ArgsWtf8<Wtf8Buf> = parse_args_via_parse_cmd(*line);
        assert_eq!(raw.len(), portable.len());
        while let Some(token) = raw.next_back() {
            let other: Vec<u16> = portable.next_back().unwrap().to_ill_formed_utf16().collect();
            assert_eq!(token, other);
        }
    }
}

#[test]
fn arguments_alone_from_code_units() {
    let mut args: ArgsWtf8<Vec<u16>> = parse_args_via_parse_cmd(&[0x22u16, 0xdaaa, 0x20, 0x22, 0x20, 0x62][..]);
    assert_eq!(args.next(), Some(vec![0xdaaa, 0x20]));
    assert_eq!(args.next(), Some(vec![0x62]));
    assert_eq!(args.next(), None);
    let mut args: ArgsWtf8<Vec<u16>> = parse_args_via_parse_cmd(&[][..]);
    assert_eq!(args.next(), None);
    let mut args: ArgsWtf8<Vec<u16>> = ArgsWtf8::parse_cmd(&[][..]);
    assert_eq!(args.next(), Some(vec![0x54, 0x45, 0x53, 0x54, 0x2e, 0x45, 0x58, 0x45]));
    assert_eq!(args.next(), None);
}

#[test]
fn run_of_tokens_from_text() {
    let mut args: ArgsWtf8<Wtf8Buf> = ArgsWtf8::parse_cmd("EXE \"a b\" c");
    assert_eq!(args.len(), 3);
    assert_eq!(args.size_hint(), (3, Some(3)));
    assert_eq!(args.next(), Some(Wtf8Buf::from_str("EXE")));
    assert_eq!(args.next_back(), Some(Wtf8Buf::from_str("c")));
    assert_eq!(args.next_back(), Some(Wtf8Buf::from_str("a b")));
    assert_eq!(args.next_back(), None);
    assert_eq!(args.next(), None);
    let args: ArgsWtf8<Wtf8Buf> = ArgsWtf8::parse_cmd("x \"\" y");
    let left: Vec<Wtf8Buf> = args.inner_debug().iter().cloned().collect();
    assert_eq!(left, vec![Wtf8Buf::from_str("x"), Wtf8Buf::from_str(""), Wtf8Buf::from_str("y")]);
    let mut none: ArgsWtf8<Wtf8Buf> = ArgsWtf8::new();
    assert_eq!(none.len(), 0);
    assert_eq!(none.next(), None);
}
