use windows_args::args::parse_lp_cmd_line;
use wtf8::Wtf8Buf;

// A boring character, some control characters, whitespace, characters that Windows
// forbids in file names, control characters of cmd, the terminator, something that is
// not ASCII, a lead surrogate and a trail surrogate.
fn test_chars() -> Vec<u16> {
    let mut chars: Vec<u16> = Vec::new();
    chars.push(b'a' as u16);
    chars.extend([2u16, 4, 6]);
    chars.extend(b" \t\r\n".iter().map(|&x| x as u16));
    chars.extend(br##"/\:*?"<>|"##.iter().map(|&x| x as u16));
    chars.extend(b"^%;=&".iter().map(|&x| x as u16));
    chars.push(0x00);
    chars.push(0xff);
    chars.push(0xdaaa);
    chars.push(0xdeee);
    chars
}

fn units(token: &Wtf8Buf) -> Vec<u16> {
    token.to_ill_formed_utf16().collect()
}

fn is_well_formed(wide: &[u16]) -> bool {
    String::from_utf16(wide).is_ok()
}

fn check_line(ucs_2: &[u16]) {
    let tokens = parse_lp_cmd_line::<Wtf8Buf>(ucs_2);
    assert!(!tokens.is_empty());
    assert_eq!(tokens, parse_lp_cmd_line::<Wtf8Buf>(ucs_2));
    for token in tokens.iter() {
        assert!(!units(token).contains(&0));
    }
    let end = ucs_2.iter().position(|&unit| unit == 0).unwrap();
    if is_well_formed(&ucs_2[..end]) {
        for token in tokens.iter() {
            assert!(is_well_formed(&units(token)));
        }
    }
    let mut until_terminator = ucs_2[..=end].to_vec();
    assert_eq!(tokens, parse_lp_cmd_line::<Wtf8Buf>(&until_terminator));
    until_terminator.push(0x61);
    until_terminator.push(0);
    assert_eq!(tokens, parse_lp_cmd_line::<Wtf8Buf>(&until_terminator));
}

#[test]
fn four_units_without_executable() {
    let chars = test_chars();
    for &a in chars.iter() {
        for &b in chars.iter() {
            for &c in chars.iter() {
                for &d in chars.iter() {
                    check_line(&[a, b, c, d, 0]);
                }
            }
        }
    }
}

#[test]
fn four_units_behind_an_executable() {
    let chars = test_chars();
    for &a in chars.iter() {
        for &b in chars.iter() {
            for &c in chars.iter() {
                for &d in chars.iter() {
                    let ucs_2: [u16; 7] = ['a' as u16, ' ' as u16, a, b, c, d, 0];
                    check_line(&ucs_2);
                    let tokens = parse_lp_cmd_line::<Wtf8Buf>(&ucs_2);
                    assert_eq!(units(&tokens[0]), vec!['a' as u16]);
                }
            }
        }
    }
}
