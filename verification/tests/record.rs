use storage_layout::packing::compute_size;
use storage_layout::record::{chunk_structs, parse_struct, read_line, Line};
use storage_layout::registry::Registry;
use storage_layout::slots::slot_count;
use storage_layout::split::{find_in, join_first, split_lines, split_words};
use storage_layout::text::{chars_of, is_whitespace, trim};
use storage_layout::types::{ParseError, SizeError, SolStruct, SolType};

#[test]
fn whitespace_is_what_std_says() {
    for n in 0..=0x11_0000u32 {
        if let Some(c) = char::from_u32(n) {
            assert_eq!(is_whitespace(c), c.is_whitespace(), "{:x}", n);
        }
    }
}

#[test]
fn trim_is_what_std_says() {
    for text in ["", " ", "a", " a", "a ", "\t a b \r\n", "\u{2003}x\u{85}", "  \u{3000} "] {
        assert_eq!(trim(text), text.trim());
    }
}

#[test]
fn lines_are_what_std_says() {
    for text in [
        "",
        "\n",
        "a",
        "a\n",
        "a\nb",
        "a\r\nb\r\n",
        "a\r",
        "a\r\n\r\nb",
        "\r\n",
        "a\n\nb\n\n",
        "x\ry\nz\r",
        "\n\r\n\r",
    ] {
        let expected: Vec<&str> = text.lines().collect();
        assert_eq!(split_lines(text), expected, "{:?}", text);
    }
}

#[test]
fn words_are_what_std_says() {
    for text in ["", "  ", "a", " a  b\tc ", "uint256   x", "\u{a0}a\u{2003}b\n"] {
        let expected: Vec<&str> = text.split_whitespace().collect();
        assert_eq!(split_words(text), expected, "{:?}", text);
    }
}

#[test]
fn find_gives_the_first_occurrence() {
    for (text, pattern) in [
        ("struct A {", "struct"),
        ("a struct struct", "struct"),
        ("struc", "struct"),
        ("", "x"),
        ("abc", ""),
        ("aab", "ab"),
        ("a;b;c", ";"),
    ] {
        assert_eq!(find_in(&chars_of(text), pattern), text.find(pattern), "{:?}", text);
    }
    assert_eq!(find_in(&chars_of("\u{e9}t\u{e9};"), ";"), Some(3));
}

#[test]
fn join_puts_the_separator_between() {
    let parts = vec!["a", "b", "c"];
    assert_eq!(join_first(&parts, 3, " "), "a b c");
    assert_eq!(join_first(&parts, 2, "\n"), "a\nb");
    assert_eq!(join_first(&parts, 1, " "), "a");
    assert_eq!(join_first(&parts, 0, " "), "");
}

#[test]
fn line_forms() {
    assert_eq!(read_line(""), Ok(Line::Nothing));
    assert_eq!(read_line("   \t"), Ok(Line::Nothing));
    assert_eq!(read_line("  // uint8 a;"), Ok(Line::Nothing));
    assert_eq!(read_line(" } "), Ok(Line::Nothing));
    assert_eq!(read_line("struct  Account  {"), Ok(Line::Header("Account".to_string())));
    assert_eq!(read_line("struct A { uint8 x; }"), Ok(Line::Header("A".to_string())));
    assert_eq!(read_line("struct{"), Ok(Line::Header(String::new())));
    assert_eq!(
        read_line("  uint8   count ; // how many"),
        Ok(Line::Field("count".to_string(), SolType::Uint(8)))
    );
    assert_eq!(
        read_line("mapping(address => uint256) balances;"),
        Ok(Line::Field(
            "balances".to_string(),
            SolType::Mapping(Box::new(SolType::Address), Box::new(SolType::Uint(256)))
        ))
    );
    assert_eq!(
        read_line("Thing payable owner;"),
        Ok(Line::Field("owner".to_string(), SolType::Custom2("Thing payable".to_string())))
    );
    assert_eq!(read_line("x;"), Ok(Line::Nothing));
    assert_eq!(read_line(";"), Ok(Line::Nothing));
}

#[test]
fn refused_lines() {
    assert_eq!(read_line("uint8 a"), Err(ParseError::InvalidLine("uint8 a".to_string())));
    assert_eq!(read_line(" }} "), Err(ParseError::InvalidLine("}}".to_string())));
    assert_eq!(read_line(" struct A "), Err(ParseError::InvalidLine("struct A".to_string())));
    assert_eq!(
        read_line("uint8 structure;"),
        Err(ParseError::InvalidLine("uint8 structure;".to_string()))
    );
    assert_eq!(
        read_line("uint8[x] a;"),
        Err(ParseError::MalformedType("uint8[x]".to_string()))
    );
    assert_eq!(
        read_line("uint8[99999999999999999999] a;"),
        Err(ParseError::InvalidLiteral("99999999999999999999".to_string()))
    );
}

#[test]
fn record_definition() {
    let src = "struct Account {\n    // the owner\n    address owner;\n\n    uint96 balance;\n    bool frozen;\n}";
    let expected = SolStruct {
        name: "Account".to_string(),
        fields: vec![
            ("owner".to_string(), SolType::Address),
            ("balance".to_string(), SolType::Uint(96)),
            ("frozen".to_string(), SolType::Bool),
        ],
    };
    assert_eq!(parse_struct(src), Ok(expected));
}

#[test]
fn record_without_header_has_no_name() {
    assert_eq!(
        parse_struct("uint8 a;\n}"),
        Ok(SolStruct {
            name: String::new(),
            fields: vec![("a".to_string(), SolType::Uint(8))]
        })
    );
    assert_eq!(parse_struct(""), Ok(SolStruct { name: String::new(), fields: vec![] }));
}

#[test]
fn first_refused_line_ends_the_reading() {
    assert_eq!(
        parse_struct("struct A {\nuint8 a\nuint8[x] b;\n}"),
        Err(ParseError::InvalidLine("uint8 a".to_string()))
    );
}

#[test]
fn chunks_end_at_closing_braces() {
    let src = "struct A {\r\n  uint8 a;\r\n}\r\n\r\n\nstruct B {\n  A a;\n}\nstruct C {\n";
    assert_eq!(
        chunk_structs(src),
        vec!["struct A {\n  uint8 a;\n}".to_string(), "struct B {\n  A a;\n}".to_string()]
    );
    assert_eq!(chunk_structs(""), Vec::<String>::new());
    assert_eq!(chunk_structs("   \n\n"), Vec::<String>::new());
    assert_eq!(chunk_structs("struct A { }"), vec!["struct A { }".to_string()]);
    assert_eq!(chunk_structs("a\r"), Vec::<String>::new());
    assert_eq!(chunk_structs(" x }\r"), vec![" x }\r".to_string()]);
}

#[test]
fn from_text_to_slots() {
    let src = "struct Inner {\n  uint96 x;\n  bool a;\n  bool b;\n  bool c;\n  bool d;\n}\n\nstruct Outer {\n  uint8 a;\n  Inner b;\n  uint8 c;\n  Missing d;\n}\n\nstruct Good {\n  uint8 a;\n  Inner b;\n  uint8 c;\n}\n";
    let mut records = Vec::new();
    for chunk in chunk_structs(src) {
        records.push(parse_struct(&chunk).unwrap());
    }
    assert_eq!(records.len(), 3);
    let outer = parse_struct(&chunk_structs(src)[1]).unwrap();
    let good = parse_struct(&chunk_structs(src)[2]).unwrap();
    let all = Registry::new(records);
    assert_eq!(
        compute_size(&outer, &all),
        Err(SizeError::UnresolvedReference("Missing".to_string()))
    );
    let bits = compute_size(&good, &all).unwrap();
    assert_eq!(bits, 520);
    assert_eq!(slot_count(bits), 3);
}

#[test]
fn fields_keep_the_order_of_their_lines() {
    let src = "struct S {\n  bool z;\n  uint8 a;\n  // bool skipped;\n  address m;\n  bool z;\n}";
    let names: Vec<String> =
        parse_struct(src).unwrap().fields.into_iter().map(|(name, _)| name).collect();
    assert_eq!(names, vec!["z", "a", "m", "z"]);
}

#[test]
fn one_chunk_for_each_closing_line() {
    let src = "a\n}\n\n  \nb\nc }\n}\n } }\nrest";
    assert_eq!(chunk_structs(src), vec!["a\n}", "b\nc }", "}", " } }"]);
}

#[test]
fn field_with_nested_types_in_a_record() {
    assert_eq!(
        read_line("mapping(address => mapping(uint => bool)) allowed;"),
        Ok(Line::Field(
            "allowed".to_string(),
            SolType::Mapping(
                Box::new(SolType::Address),
                Box::new(SolType::Mapping(
                    Box::new(SolType::Uint(256)),
                    Box::new(SolType::Bool)
                ))
            )
        ))
    );
    assert_eq!(
        read_line("uint8[2][3] grid;"),
        Ok(Line::Field(
            "grid".to_string(),
            SolType::FixedArray(
                Box::new(SolType::FixedArray(Box::new(SolType::Uint(8)), 2)),
                3
            )
        ))
    );
}
