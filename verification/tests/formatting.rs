use large_json_reader::Formatter;

fn formatted(text: &str, chunk: usize) -> String {
    let mut formatter = Formatter::new();
    let mut out = Vec::new();
    for piece in text.as_bytes().chunks(chunk) {
        out.append(&mut formatter.feed(piece));
    }
    String::from_utf8(out).unwrap()
}

#[test]
fn puts_each_value_on_a_line() {
    let text = r#"{"a":[1,2 , {} ],"b" : {"c":"x, y: {\"z\"}"},"d":[ ]}"#;
    let expected = r#"{
  "a": [
    1,
    2,
    {}
  ],
  "b": {
    "c": "x, y: {\"z\"}"
  },
  "d": []
}"#;
    for chunk in 1..20 {
        assert_eq!(formatted(text, chunk), expected);
    }
}

#[test]
fn what_is_formatted_stays_as_it_is() {
    let once = formatted(r#"[{"a":null,"b":[true,false]},"\\",-1.5e+3]"#, 7);
    assert_eq!(formatted(&once, 3), once);
}

#[test]
fn values_that_blanks_part_stay_apart() {
    assert_eq!(formatted("1 2", 1), "1\n2");
    assert_eq!(formatted("{\"a\":1}\n{\"b\":2}\n", 4), "{\n  \"a\": 1\n}\n{\n  \"b\": 2\n}");
}

#[test]
fn blanks_in_strings_stay() {
    assert_eq!(formatted("[ \"a  b\\\" ,c\" ]", 2), "[\n  \"a  b\\\" ,c\"\n]");
}

#[test]
fn formatting_keeps_all_but_blanks() {
    let text = r#"{"a":[1,2,{"b":"c"}],"d":{}}"#;
    let kept: String = formatted(text, 5).chars().filter(|c| !c.is_whitespace()).collect();
    assert_eq!(kept, text);
}

#[test]
fn brackets_too_many_are_put_up_with() {
    assert_eq!(formatted("]}1", 1), "\n]\n}1");
}
