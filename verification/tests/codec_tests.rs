use bookshelf::{decode_book, encode_book, parse_date, Book, Date};

fn dune() -> Book {
    Book {
        name: "Dune".to_owned(),
        author: "Frank Herbert".to_owned(),
        published: Date { year: 1965, month: 8, day: 1 },
    }
}

#[test]
fn encode_dune_exact_text() {
    let text = encode_book(&dune());
    assert_eq!(text, "{\"name\":\"Dune\",\"author\":\"Frank Herbert\",\"published\":\"1965-08-01\"}");
}

#[test]
fn decode_canonical_text() {
    let b = decode_book("{\"name\":\"Dune\",\"author\":\"Frank Herbert\",\"published\":\"1965-08-01\"}").unwrap();
    assert_eq!(b.name, "Dune");
    assert_eq!(b.author, "Frank Herbert");
    assert_eq!(b.published, Date { year: 1965, month: 8, day: 1 });
}

#[test]
fn decode_tolerates_whitespace_and_order() {
    let text = " { \"published\" : \"2001-12-31\" ,\n\t\"author\" : \"A\" , \"name\" : \"B\" } ";
    let b = decode_book(text).unwrap();
    assert_eq!(b.name, "B");
    assert_eq!(b.author, "A");
    assert_eq!(b.published, Date { year: 2001, month: 12, day: 31 });
}

#[test]
fn round_trip_plain() {
    let b = dune();
    let back = decode_book(&encode_book(&b)).unwrap();
    assert_eq!(back.name, b.name);
    assert_eq!(back.author, b.author);
    assert_eq!(back.published, b.published);
}

#[test]
fn round_trip_special_characters() {
    let b = Book {
        name: "a \"quoted\" name \\ with\nnewline\tand tab".to_owned(),
        author: "auth/or with / slash".to_owned(),
        published: Date { year: 2000, month: 2, day: 29 },
    };
    let back = decode_book(&encode_book(&b)).unwrap();
    assert_eq!(back.name, b.name);
    assert_eq!(back.author, b.author);
    assert_eq!(back.published, b.published);
}

#[test]
fn round_trip_unicode() {
    let b = Book {
        name: "百年の孤独 — çédille".to_owned(),
        author: "Gabriel García Márquez".to_owned(),
        published: Date { year: 1967, month: 5, day: 30 },
    };
    let back = decode_book(&encode_book(&b)).unwrap();
    assert_eq!(back.name, b.name);
    assert_eq!(back.author, b.author);
}

#[test]
fn decode_rejects_missing_published() {
    assert!(decode_book("{\"name\":\"Dune\",\"author\":\"Frank Herbert\"}").is_err());
}

#[test]
fn decode_rejects_missing_name() {
    assert!(decode_book("{\"author\":\"X\",\"published\":\"1965-08-01\"}").is_err());
}

#[test]
fn decode_rejects_duplicate_member() {
    assert!(
        decode_book("{\"name\":\"A\",\"name\":\"B\",\"published\":\"1965-08-01\"}").is_err()
    );
}

#[test]
fn decode_rejects_unknown_member() {
    assert!(
        decode_book("{\"name\":\"A\",\"writer\":\"B\",\"published\":\"1965-08-01\"}").is_err()
    );
}

#[test]
fn decode_rejects_malformed_json() {
    assert!(decode_book("").is_err());
    assert!(decode_book("not json at all").is_err());
    assert!(decode_book("{\"name\":\"A\",\"author\":\"B\",\"published\":\"1965-08-01\"").is_err());
    assert!(decode_book("[1, 2, 3]").is_err());
}

#[test]
fn decode_rejects_bad_dates() {
    assert!(decode_book("{\"name\":\"A\",\"author\":\"B\",\"published\":\"1965-13-01\"}").is_err());
    assert!(decode_book("{\"name\":\"A\",\"author\":\"B\",\"published\":\"1965-02-30\"}").is_err());
    assert!(decode_book("{\"name\":\"A\",\"author\":\"B\",\"published\":\"1900-02-29\"}").is_err());
    assert!(decode_book("{\"name\":\"A\",\"author\":\"B\",\"published\":\"196-08-01\"}").is_err());
    assert!(decode_book("{\"name\":\"A\",\"author\":\"B\",\"published\":\"typo\"}").is_err());
}

#[test]
fn decode_accepts_leap_day() {
    let b = decode_book("{\"name\":\"A\",\"author\":\"B\",\"published\":\"2000-02-29\"}").unwrap();
    assert_eq!(b.published, Date { year: 2000, month: 2, day: 29 });
}

#[test]
fn encoded_text_parses_with_serde_json() {
    let text = encode_book(&Book {
        name: "Quote \" and \\ back".to_owned(),
        author: "Ann".to_owned(),
        published: Date { year: 1999, month: 1, day: 9 },
    });
    let v: serde_json::Value = serde_json::from_str(&text).unwrap();
    assert_eq!(v["name"].as_str().unwrap(), "Quote \" and \\ back");
    assert_eq!(v["author"].as_str().unwrap(), "Ann");
    assert_eq!(v["published"].as_str().unwrap(), "1999-01-09");
}

#[test]
fn decodes_serde_json_output() {
    let mut m = serde_json::Map::new();
    m.insert("name".to_owned(), serde_json::Value::String("Solaris".to_owned()));
    m.insert("author".to_owned(), serde_json::Value::String("Stanisław Lem".to_owned()));
    m.insert("published".to_owned(), serde_json::Value::String("1961-06-01".to_owned()));
    let text = serde_json::to_string(&serde_json::Value::Object(m)).unwrap();
    let b = decode_book(&text).unwrap();
    assert_eq!(b.name, "Solaris");
    assert_eq!(b.author, "Stanisław Lem");
    assert_eq!(b.published, Date { year: 1961, month: 6, day: 1 });
}

#[test]
fn date_text_agrees_with_chrono() {
    let d = Date { year: 1965, month: 8, day: 1 };
    let text = bookshelf::format_date(&d);
    let nd = chrono::NaiveDate::parse_from_str(&text, "%Y-%m-%d").unwrap();
    assert_eq!(nd, chrono::NaiveDate::from_ymd_opt(1965, 8, 1).unwrap());
}

#[test]
fn date_parse_round_trip() {
    let d = Date { year: 400, month: 2, day: 29 };
    let text = bookshelf::format_date(&d);
    assert_eq!(text, "0400-02-29");
    let mut chars: Vec<char> = Vec::new();
    for c in text.chars() {
        chars.push(c);
    }
    assert_eq!(parse_date(&chars), Some(d));
}

#[test]
fn decode_handles_short_and_unicode_escapes() {
    let text = "{\"name\":\"\\u0041\\n\\t\\\"x\\\\\",\"author\":\"\\/\",\"published\":\"1980-06-15\"}";
    let b = decode_book(text).unwrap();
    assert_eq!(b.name, "A\n\t\"x\\");
    assert_eq!(b.author, "/");
}

#[test]
fn decode_rejects_bad_escapes_and_raw_controls() {
    assert!(decode_book("{\"name\":\"\\q\",\"author\":\"B\",\"published\":\"1980-06-15\"}").is_err());
    assert!(decode_book("{\"name\":\"\\u12\",\"author\":\"B\",\"published\":\"1980-06-15\"}").is_err());
    assert!(decode_book("{\"name\":\"a\nb\",\"author\":\"B\",\"published\":\"1980-06-15\"}").is_err());
}

#[test]
fn control_characters_are_escaped_on_encode() {
    let b = Book {
        name: "a\u{1}b".to_owned(),
        author: "c".to_owned(),
        published: Date { year: 2020, month: 1, day: 1 },
    };
    let text = encode_book(&b);
    assert_eq!(text, "{\"name\":\"a\\u0001b\",\"author\":\"c\",\"published\":\"2020-01-01\"}");
    let back = decode_book(&text).unwrap();
    assert_eq!(back.name, b.name);
}

#[test]
fn date_parse_rejects_malformed() {
    let cases = ["1965/08/01", "1965-8-1", "65-08-01", "1965-08-011", "aaaa-bb-cc"];
    for case in cases {
        let mut chars: Vec<char> = Vec::new();
        for c in case.chars() {
            chars.push(c);
        }
        assert_eq!(parse_date(&chars), None);
    }
}
