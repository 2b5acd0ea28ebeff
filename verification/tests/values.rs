use tome::clock::{civil_from_days, days_from_civil, format_iso8601};
use tome::json::{lookup, object, part_of, put, text_array, text_of, text_or, Json};
use tome::parse::{after_bytes, char_bytes, keep_filled, lines_of, parse_whole, split_str, words_of};
use tome::strmap::{drop_text, StrMap};
use tome::text::{decimal_u64, has_char, join, less, split_char, starts_with, strip_suffix, trim, trim_end};

fn list(v: &[&str]) -> Vec<String> {
    v.iter().map(|s| s.to_string()).collect()
}

// ---- text ----

#[test]
fn text_is_cut_and_joined() {
    assert_eq!(split_char("a/b//c", '/'), list(&["a", "b", "", "c"]));
    assert_eq!(split_char("", '/'), list(&[""]));
    assert_eq!(join(&list(&["a", "b"]), ", "), "a, b");
    assert_eq!(trim("\u{3000} a b\n"), "a b");
    assert_eq!(trim_end(" a \n"), " a");
    assert!(starts_with("popout-1", "popout") && !starts_with("pop", "popout"));
    assert_eq!(strip_suffix("a.flow.json", ".flow.json"), Some("a".to_string()));
    assert_eq!(strip_suffix("a.json", ".flow.json"), None);
    assert!(has_char("a/b", '/') && !has_char("ab", '/'));
    assert!(less("a", "b") && less("a", "aa") && !less("b", "a") && !less("a", "a"));
    assert_eq!(decimal_u64(u64::MAX), u64::MAX.to_string());
}

#[test]
fn output_is_read_line_by_line_and_word_by_word() {
    assert_eq!(lines_of("a\n\nb\n"), list(&["a", "b"]));
    assert_eq!(words_of("  2\t5 \n"), list(&["2", "5"]));
    assert_eq!(keep_filled(&list(&["", "a", ""])), list(&["a"]));
    assert_eq!(split_str("a, b,c, ", ", "), list(&["a", "b,c", ""]));
    assert_eq!(split_str("", ", "), list(&[""]));
}

#[test]
fn whole_numbers_are_read_as_they_are_written() {
    assert_eq!(parse_whole("42"), Some(42));
    assert_eq!(parse_whole("-7"), Some(-7));
    assert_eq!(parse_whole("+7"), Some(7));
    for bad in ["", "-", "+", "4x", " 4", "99999999999999999999"] {
        assert_eq!(parse_whole(bad), None, "{bad}");
    }
    assert_eq!(parse_whole("9223372036854775807"), Some(i64::MAX));
    assert_eq!(parse_whole("9223372036854775808"), None);
    assert_eq!(parse_whole("-9223372036854775808"), Some(i64::MIN));
}

#[test]
fn bytes_are_counted_as_they_are_stored() {
    for c in ['a', 'é', '€', '😀'] {
        assert_eq!(char_bytes(c), c.len_utf8());
    }
    assert_eq!(after_bytes("?? é", 3), "é");
    assert_eq!(after_bytes("ab", 3), "");
    assert_eq!(after_bytes("aéb", 2), "");
}

// ---- maps ----

#[test]
fn a_map_holds_one_value_for_a_key() {
    let mut m = StrMap::new();
    m.set("a", 1);
    m.set("b", 2);
    m.set("a", 3);
    assert_eq!(m.get("a"), Some(&3));
    assert_eq!(m.keys(), list(&["a", "b"]));
    assert!(m.contains("b") && !m.contains("c"));
    assert_eq!(m.remove("a"), Some(3));
    assert_eq!(m.remove("a"), None);
    assert_eq!(m.keys(), list(&["b"]));
    assert_eq!(drop_text(&list(&["a", "b", "a"]), "a"), list(&["b"]));
}

// ---- JSON ----

#[test]
fn a_field_reads_back_as_it_was_put() {
    let mut o = vec![];
    put(&mut o, "a", Json::Bool(true));
    put(&mut o, "b", Json::Null);
    put(&mut o, "a", Json::Bool(false));
    assert_eq!(o.len(), 2);
    assert!(matches!(lookup(&o, "a"), Some(Json::Bool(false))));
    assert!(lookup(&o, "c").is_none());
    let v = object(o);
    assert!(matches!(part_of(&v, "a"), Some(Json::Bool(false))));
    assert!(part_of(&Json::Null, "a").is_none());
    assert!(text_of(&v, "a").is_none());
}

#[test]
fn texts_become_values() {
    match text_array(&list(&["x"])) {
        Json::Array(v) => assert!(matches!(&v[0], Json::Text(s) if s == "x")),
        _ => panic!("a list of texts is an array"),
    }
    assert!(matches!(text_or(None), Json::Null));
    assert!(matches!(text_or(Some("x")), Json::Text(s) if s == "x"));
}

// ---- time ----

#[test]
fn dates_and_days_are_inverse() {
    assert_eq!(days_from_civil(1970, 1, 1), 0);
    assert_eq!(days_from_civil(2000, 3, 1), 11_017);
    assert_eq!(days_from_civil(1969, 12, 31), -1);
    assert_eq!(civil_from_days(11_016), (2000, 2, 29));
    assert_eq!(civil_from_days(-1), (1969, 12, 31));
    for z in [-800_000i64, -1, 0, 59, 60, 19_000, 3_000_000] {
        let (y, m, d) = civil_from_days(z);
        assert_eq!(days_from_civil(y, m as i64, d as i64), z);
    }
}

#[test]
fn instants_are_written_to_the_millisecond() {
    assert_eq!(format_iso8601(0), "1970-01-01T00:00:00.000Z");
    assert_eq!(format_iso8601(951_782_400_123), "2000-02-29T00:00:00.123Z");
}
