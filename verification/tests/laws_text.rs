use codex_chat_bridge::context::flatten_namespace_tool_name;
use codex_chat_bridge::convert::tool_arguments::canonicalize_tool_arguments;
use codex_chat_bridge::decoder::Utf8StreamDecoder;
use codex_chat_bridge::json::{same_json, Json};
use codex_chat_bridge::media::is_safe_media_url;
use codex_chat_bridge::reasoning::{
    could_be_partial_think_open, extract_reasoning_field, find_think_close,
    match_think_open_at_start, split_inline_think, trailing_partial_close_len,
};
use codex_chat_bridge::sanitize::sanitize_string;
use codex_chat_bridge::sha256::sha256_hex_16;
use codex_chat_bridge::sse::{extract_block, parse_sse_block, serialize_event};

/// What a decoder makes of bytes that come in pieces of the given size.
fn decoded(data: &[u8], size: usize) -> (String, u64) {
    let mut decoder = Utf8StreamDecoder::new();
    let mut out = String::new();
    for piece in data.chunks(size) {
        out.push_str(&decoder.decode(piece));
    }
    out.push_str(&decoder.finalize());
    (out, decoder.replacements())
}

/// Bytes of all kinds: text, cut characters, overlong forms, surrogates.
fn samples() -> Vec<Vec<u8>> {
    let mut list: Vec<Vec<u8>> = vec![
        b"plain".to_vec(),
        "na\u{ef}ve \u{20ac} \u{1f600} \u{10ffff}".as_bytes().to_vec(),
        vec![0xe2, 0x82],
        vec![0xe2, 0x82, 0x41],
        vec![0xf0, 0x9f, 0x98],
        vec![0xf0, 0x9f, 0x41, 0x98],
        vec![0xc0, 0x80, 0x41],
        vec![0xc1, 0xbf],
        vec![0xe0, 0x80, 0x80],
        vec![0xed, 0xa0, 0x80],
        vec![0xf4, 0x90, 0x80, 0x80],
        vec![0xf5, 0x80, 0x80, 0x80],
        vec![0x80, 0xbf, 0xff, 0xfe],
        vec![0xef, 0xbf, 0xbd],
        vec![0xf4, 0x8f, 0xbf, 0xbf],
    ];
    for first in 0..=255u8 {
        list.push(vec![first, 0x41]);
        list.push(vec![first, 0x80, 0x41]);
        list.push(vec![first, 0xa0, 0x80, 0x41]);
        list.push(vec![first, 0x90, 0x80, 0x80]);
    }
    list
}

#[test]
fn decoding_is_the_same_for_all_pieces() {
    for data in samples() {
        let whole = decoded(&data, 64);
        for size in 1..5 {
            assert_eq!(decoded(&data, size), whole, "{data:?} in pieces of {size}");
        }
    }
}

#[test]
fn decoding_agrees_with_lossy_decoding() {
    for data in samples() {
        let (text, replaced) = decoded(&data, 2);
        assert_eq!(text, String::from_utf8_lossy(&data), "{data:?}");
        if String::from_utf8(data.clone()).is_ok() {
            assert_eq!(replaced, 0);
        }
    }
}

#[test]
fn encoded_text_comes_back() {
    let text = "a\u{7f}\u{80}\u{7ff}\u{800}\u{d7ff}\u{e000}\u{ffff}\u{10000}\u{10ffff}";
    for size in 1..8 {
        assert_eq!(decoded(text.as_bytes(), size), (text.to_owned(), 0));
    }
}

#[test]
fn frames_come_back() {
    for name in [None, Some("response.created"), Some("a b")] {
        let data = Json::parse(r#"{"s": "line\nbreak \r \u0000 €", "n": -5, "b": true}"#).unwrap();
        let text = String::from_utf8(serialize_event(name, &data)).unwrap();
        let (block, rest) = extract_block(&(text + "tail\r\n")).unwrap();
        assert_eq!(rest, "tail\n");
        let (event, found) = parse_sse_block(&block);
        assert_eq!(event.as_deref(), name);
        assert_eq!(Json::parse(&found.unwrap()).unwrap().to_serde(), data.to_serde());
    }
}

#[test]
fn blocks_end_at_the_first_empty_line() {
    let (block, rest) = extract_block("a\r\nb\r\n\r\nc\n\nd").unwrap();
    assert_eq!(block, "a\nb");
    assert_eq!(rest, "c\n\nd");
    assert_eq!(extract_block("\n\nx").unwrap(), (String::new(), "x".to_owned()));
    assert!(extract_block("a\n\rb\n").is_none());
}

#[test]
fn lines_of_a_block_end_in_any_way() {
    let (event, data) = parse_sse_block("event:  x \r\ndata: 1\r\nother: y\ndata:2\r");
    assert_eq!(event.as_deref(), Some("x"));
    assert_eq!(data.as_deref(), Some("1\n2\r"));
}

#[test]
fn documents_come_back_from_their_text() {
    for text in [
        "null",
        "true",
        "0",
        "18446744073709551615",
        "-9223372036854775808",
        "0.1",
        "-2.5e-8",
        "1e300",
        "\"\\\"\\\\\\n\\u0000\u{e9}\"",
        "[]",
        "[1,[2,[3]]]",
        "{\"a\":{\"b\":[null]}}",
    ] {
        let value = Json::parse(text).unwrap();
        assert_eq!(
            Json::parse(&value.render()).unwrap().to_serde(),
            value.to_serde(),
            "{text}"
        );
    }
    assert!(Json::parse("{").is_none());
    assert!(Json::parse("").is_none());
    assert_eq!(
        Json::read("[1,]").unwrap_err(),
        "trailing comma at line 1 column 4"
    );
}

#[test]
fn documents_are_written_compactly_and_in_order() {
    let value = Json::parse("{ \"b\" : 1, \"a\" : [ true, 0.999 ], \"b\" : 2 }").unwrap();
    assert_eq!(value.render(), "{\"a\":[true,0.999],\"b\":2}");
}

#[test]
fn digests_are_those_of_sha_256() {
    assert_eq!(sha256_hex_16(b"abc"), "ba7816bf8f01cfea");
    assert_eq!(sha256_hex_16(b""), "e3b0c44298fc1c14");
    assert_eq!(sha256_hex_16(&[b'a'; 1000]), "41edece42d63e8d9");
}

#[test]
fn long_names_are_cut_and_marked() {
    assert_eq!(flatten_namespace_tool_name("ns", "tool"), "ns__tool");
    assert_eq!(flatten_namespace_tool_name("n", &"a".repeat(61)).len(), 64);
    assert_eq!(
        flatten_namespace_tool_name("ns", &"a".repeat(70)),
        "ns__aaaaaaaaaaaaaaaaaaaaaaaaaaaaaaaaaaaaaaaaaa__ad2734d9a4b493d2"
    );
}

#[test]
fn sanitizing_twice_is_sanitizing_once() {
    for text in ["", "a\u{0}b", "\u{1f}\n\t\r\u{7f}\u{85}", "clean"] {
        let once = sanitize_string(text);
        assert_eq!(sanitize_string(&once), once);
    }
}

#[test]
fn think_blocks_are_parted() {
    let parts = |text: &str| split_inline_think(text);
    assert_eq!(
        parts("<think>a</think>b"),
        Some(("a".to_owned(), "b".to_owned()))
    );
    assert_eq!(
        parts("pre <THINKING >a</Thinking\t> post"),
        Some(("a".to_owned(), "pre  post".to_owned()))
    );
    assert_eq!(parts("<think>open <think> end"), Some(("open  end".to_owned(), String::new())));
    assert_eq!(parts("<think>  </think>b"), None);
    assert_eq!(parts("plain"), None);
}

#[test]
fn tags_are_found_by_their_bytes() {
    assert_eq!(match_think_open_at_start("<think>x"), Some(7));
    assert_eq!(match_think_open_at_start("x<think>"), None);
    assert_eq!(find_think_close("\u{e9}</think>y"), Some((2, 10)));
    assert_eq!(find_think_close("</thin>"), None);
    assert!(could_be_partial_think_open(" <thi"));
    assert!(could_be_partial_think_open("<think  "));
    assert!(!could_be_partial_think_open("<b"));
    assert!(!could_be_partial_think_open("  "));
    assert_eq!(trailing_partial_close_len("abc</thi"), 5);
    assert_eq!(trailing_partial_close_len("abc</think "), 8);
    assert_eq!(trailing_partial_close_len("abc"), 0);
    assert_eq!(trailing_partial_close_len("</think      "), 13);
}

#[test]
fn partial_tags_are_those_that_can_go_on() {
    let endings = ["", ">", "think>", "hink>", "nk>", "k>", "ing>", "ng>", "g>", "/think>"];
    for text in [
        "<", "<t", "<thin", "<think", "<thinki", "<think ", "<thinking\t", "<thinx", "x<", "<b",
        "</", "<think x",
    ] {
        let grows = endings.iter().any(|end| {
            let all = format!("{text}{end}");
            match_think_open_at_start(&all) == Some(all.len())
        });
        assert_eq!(could_be_partial_think_open(text), grows, "{text}");
    }
    for (text, held) in [("a</", 2), ("</</thinking ", 11), ("</think x", 0), ("<<", 1)] {
        assert_eq!(trailing_partial_close_len(text), held, "{text}");
    }
}

#[test]
fn replacements_are_counted() {
    let mark = [0xef, 0xbf, 0xbd];
    for data in samples() {
        let (text, count) = decoded(&data, 2);
        let marks = text.chars().filter(|c| *c == '\u{fffd}').count();
        let before = data.windows(3).filter(|w| *w == mark).count();
        assert_eq!(count as usize, marks - before);
    }
    assert_eq!(decoded("a\u{fffd}b".as_bytes(), 1), ("a\u{fffd}b".to_owned(), 0));
    assert_eq!(decoded(b"\xef\xbf\xbd\xef\xbf", 4).1, 1);
}

#[test]
fn numbers_are_equal_by_value() {
    let same = |a: &str, b: &str| same_json(&Json::parse(a).unwrap(), &Json::parse(b).unwrap());
    assert!(same("[0.0]", "[-0.0]"));
    assert!(same(r#"{"a": -0.0, "b": 1}"#, r#"{"b": 1, "a": 0.0}"#));
    assert!(same("1.50", "15e-1"));
    assert!(!same("1", "1.0"));
    assert!(!same("0", "0.0"));
    assert!(!same("0.1", "-0.1"));
    assert!(!same(r#"{"a": 1}"#, r#"{"a": 1, "b": 2}"#));
}

#[test]
fn reserved_addresses_are_out_of_reach() {
    for host in ["240.0.0.1", "255.255.255.255", "247.1.2.3"] {
        assert!(!is_safe_media_url(
            &format!("https://{host}/a.png"),
            Some("data:image/")
        ));
    }
    assert!(is_safe_media_url("https://223.1.2.3/a.png", Some("data:image/")));
    for host in [
        "::ffff:127.0.0.1",
        "::ffff:169.254.169.254",
        "::ffff:a00:1",
        "::7f00:1",
        "64:ff9b::1",
        "100::1",
        "4000::1",
        "fec0::1",
        "fe00::1",
    ] {
        assert!(!is_safe_media_url(&format!("https://[{host}]/a.png"), None), "{host}");
    }
    for host in ["::ffff:8.8.8.8", "2606:2800:220:1::1", "3fff::1"] {
        assert!(is_safe_media_url(&format!("https://[{host}]/a.png"), None), "{host}");
    }
}

#[test]
fn reasoning_fields_are_taken_in_order() {
    let field = |text: &str| match Json::parse(text).unwrap() {
        Json::Object(o) => extract_reasoning_field(&o),
        _ => None,
    };
    assert_eq!(
        field(r#"{"reasoning_content": " a ", "reasoning": "b"}"#).as_deref(),
        Some(" a ")
    );
    assert_eq!(
        field(r#"{"reasoning_content": "  ", "reasoning": "b"}"#).as_deref(),
        Some("b")
    );
    assert_eq!(field(r#"{"reasoning": 7}"#), None);
}

#[test]
fn arguments_are_brought_to_one_form() {
    let canonical = |text: &str| canonicalize_tool_arguments(Some(&Json::text(text)));
    assert_eq!(canonical("{ \"b\": 1, \"a\": 2 }"), "{\"a\":2,\"b\":1}");
    assert_eq!(canonical("  "), "{}");
    assert_eq!(canonical("not json"), "not json");
    assert_eq!(canonicalize_tool_arguments(None), "{}");
    let value = Json::parse("{\"x\": [1]}").unwrap();
    assert_eq!(canonicalize_tool_arguments(Some(&value)), "{\"x\":[1]}");
}
