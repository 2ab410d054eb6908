use shareables::url::encode_value;

#[test]
fn unreserved_characters_stand_for_themselves() {
    let text = "ABCDEFGHIJKLMNOPQRSTUVWXYZabcdefghijklmnopqrstuvwxyz0123456789-._~";
    assert_eq!(encode_value(text), text);
}

#[test]
fn the_empty_text_stays_empty() {
    assert_eq!(encode_value(""), "");
}

#[test]
fn delimiters_of_an_address_are_written_as_hex() {
    assert_eq!(encode_value("&"), "%26");
    assert_eq!(encode_value("="), "%3D");
    assert_eq!(encode_value("#"), "%23");
    assert_eq!(encode_value("?"), "%3F");
    assert_eq!(encode_value("/"), "%2F");
    assert_eq!(encode_value(" "), "%20");
    assert_eq!(encode_value("+"), "%2B");
    assert_eq!(encode_value("%"), "%25");
    assert_eq!(encode_value(":"), "%3A");
    assert_eq!(encode_value("@"), "%40");
    assert_eq!(encode_value("\""), "%22");
}

#[test]
fn a_keyword_with_parameters_in_it_is_one_value() {
    assert_eq!(encode_value("a&max_results=10"), "a%26max_results%3D10");
    assert_eq!(encode_value("a&site=x"), "a%26site%3Dx");
    assert_eq!(encode_value("#rustlang"), "%23rustlang");
    assert_eq!(encode_value("rust lang"), "rust%20lang");
}

#[test]
fn other_characters_are_written_byte_by_byte() {
    assert_eq!(encode_value("é"), "%C3%A9");
    assert_eq!(encode_value("日本"), "%E6%97%A5%E6%9C%AC");
    assert_eq!(encode_value("🔄"), "%F0%9F%94%84");
    assert_eq!(encode_value("\u{0}"), "%00");
    assert_eq!(encode_value("\u{7f}"), "%7F");
    assert_eq!(encode_value("\n"), "%0A");
}

#[test]
fn every_byte_value_is_written_with_two_upper_case_hex_digits() {
    for code in 0u32..128 {
        let c = char::from_u32(code).unwrap();
        let got = encode_value(&c.to_string());
        let plain = c.is_ascii_alphanumeric() || c == '-' || c == '.' || c == '_' || c == '~';
        let expected = if plain { c.to_string() } else { format!("%{:02X}", code) };
        assert_eq!(got, expected);
    }
}

#[test]
fn an_encoded_value_holds_no_delimiter() {
    let texts = ["a&b=c#d?e/f g", "日本&語", "%26", "&&&", "k=v&k=w"];
    for text in texts {
        let value = encode_value(text);
        assert!(value.chars().all(|c| c == '%' || c.is_ascii_alphanumeric() || "-._~".contains(c)));
    }
}

fn decode(value: &str) -> String {
    let bytes = value.as_bytes();
    let mut out = Vec::new();
    let mut i = 0;
    while i < bytes.len() {
        if bytes[i] == b'%' && i + 2 < bytes.len() {
            let hex = std::str::from_utf8(&bytes[i + 1..i + 3]).unwrap();
            out.push(u8::from_str_radix(hex, 16).unwrap());
            i += 3;
        } else {
            out.push(bytes[i]);
            i += 1;
        }
    }
    String::from_utf8(out).unwrap()
}

#[test]
fn decoding_gives_the_text_back() {
    let texts = ["", "plain", "a&max_results=10", "#tag", "100% sure", "日本語 & more", "🔄=~"];
    for text in texts {
        assert_eq!(decode(&encode_value(text)), text);
    }
}
