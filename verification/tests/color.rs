use colorlang::color::Color;

#[test]
fn plus_saturates() {
    let c = Color::new(10, 200, 255);
    let r = c.plus(10, 100, 1);
    assert_eq!(r, Color::new(20, 255, 255));

    let c = Color::new(0, 0, 0);
    assert_eq!(c.plus(255, 0, 255), Color::new(255, 0, 255));
}

#[test]
fn minus_saturates() {
    let c = Color::new(10, 200, 0);
    let r = c.minus(20, 100, 1);
    assert_eq!(r, Color::new(0, 100, 0));

    let c = Color::new(255, 255, 255);
    assert_eq!(c.minus(255, 0, 1), Color::new(0, 255, 254));
}

#[test]
fn hex_decode() {
    let chars: Vec<char> = "1410ff".chars().collect();
    assert_eq!(Color::from_hex_chars(&chars), Some(Color::new(20, 16, 255)));

    let chars: Vec<char> = "ABCDEF".chars().collect();
    assert_eq!(Color::from_hex_chars(&chars), Some(Color::new(0xab, 0xcd, 0xef)));

    let chars: Vec<char> = "1410fg".chars().collect();
    assert_eq!(Color::from_hex_chars(&chars), None);

    let chars: Vec<char> = "+410ff".chars().collect();
    assert_eq!(Color::from_hex_chars(&chars), None);
}

#[test]
fn hex_encode() {
    assert_eq!(Color::new(10, 10, 10).to_hex_string(), "#0a0a0a");
    assert_eq!(Color::new(20, 16, 255).to_hex_string(), "#1410ff");
    assert_eq!(Color::new(0, 0, 0).to_hex_string(), "#000000");
    assert_eq!(Color::new(255, 255, 255).to_hex_string(), "#ffffff");
}

#[test]
fn hex_round_trip() {
    // decoding six lower-case hex digits and re-encoding gives the same text
    for text in ["#0a0a0a", "#1410ff", "#000000", "#ffffff", "#89abcd"] {
        let chars: Vec<char> = text.chars().skip(1).collect();
        let c = Color::from_hex_chars(&chars).unwrap();
        assert_eq!(c.to_hex_string(), text);
    }
}
