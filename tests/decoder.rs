use spore_dob_1::decoder::items::{encode_item, encode_item_vec};
use spore_dob_1::decoder::matching::{
    get_dob0_value_by_name, get_dob1_value_by_dob0_value, match_value,
};
use spore_dob_1::decoder::schema::decode_trait_schema;
use spore_dob_1::decoder::types::{
    DOB0Output, DOB0TraitValue, Error, ImageType, JsonValue, ParsedTrait, Pattern, TraitSchema,
};
use spore_dob_1::decoder::{dobs_parse_parameters, dobs_parse_syscall_parameters};

fn to_json(v: &serde_json::Value) -> JsonValue {
    match v {
        serde_json::Value::Null => JsonValue::Null,
        serde_json::Value::Bool(b) => JsonValue::Bool(*b),
        serde_json::Value::Number(n) => match n.as_u64() {
            Some(n) => JsonValue::Number(n),
            None => JsonValue::OtherNumber,
        },
        serde_json::Value::String(s) => JsonValue::String(s.clone()),
        serde_json::Value::Array(a) => JsonValue::Array(a.iter().map(to_json).collect()),
        serde_json::Value::Object(o) => {
            JsonValue::Object(o.iter().map(|(k, v)| (k.clone(), to_json(v))).collect())
        }
    }
}

fn rows(text: &str) -> Vec<Vec<JsonValue>> {
    let parsed: Vec<Vec<serde_json::Value>> = serde_json::from_str(text).unwrap();
    parsed
        .iter()
        .map(|row| row.iter().map(to_json).collect())
        .collect()
}

fn text(s: &str) -> JsonValue {
    JsonValue::String(s.to_owned())
}

fn output(name: &str, traits: Vec<ParsedTrait>) -> DOB0Output {
    DOB0Output {
        name: name.to_owned(),
        traits,
    }
}

fn string_trait(s: &str) -> ParsedTrait {
    ParsedTrait::String(s.to_owned())
}

fn le32(n: u32) -> Vec<u8> {
    n.to_le_bytes().to_vec()
}

fn expected_item(tag: u32, content: &str) -> Vec<u8> {
    let mut out = le32(tag);
    out.extend(le32(content.len() as u32));
    out.extend(content.as_bytes());
    out
}

fn expected_item_vec(items: &[Vec<u8>]) -> Vec<u8> {
    let header = 4 * (items.len() + 1);
    let total = header + items.iter().map(|i| i.len()).sum::<usize>();
    let mut out = le32(total as u32);
    let mut offset = header;
    for item in items {
        out.extend(le32(offset as u32));
        offset += item.len();
    }
    for item in items {
        out.extend(item);
    }
    out
}

fn run(dob0_output: Vec<DOB0Output>, schema: &str) -> Result<Vec<(String, Vec<u8>)>, Error> {
    let parameters = dobs_parse_parameters(2, Some(dob0_output), Some(rows(schema)))?;
    dobs_parse_syscall_parameters(&parameters)
}

const COLOR_TABLE: &str = "[[\"0\",\"color\",\"Name\",\"options\",[[\"Alice\",\"#0000FF\"],[\"Ethan\",\"#FF0000\"],[[\"*\"],\"#FFFFFF\"]]]]";

#[test]
fn test_parse_syscall_parameters() {
    let dob0_output = vec![
        output("Name", vec![string_trait("Ethan")]),
        output("Age", vec![ParsedTrait::Number(23)]),
        output("Score", vec![ParsedTrait::Number(136)]),
        output("DNA", vec![string_trait("0xaabbcc")]),
        output("URL", vec![string_trait("http://127.0.0.1:8090")]),
        output("Value", vec![ParsedTrait::Number(13417386)]),
    ];
    let images_base = "[[\"0\",\"color\",\"Name\",\"options\",[[\"Alice\",\"#0000FF\"],[\"Bob\",\"#00FF00\"],[\"Ethan\",\"#FF0000\"],[[\"*\"],\"#FFFFFF\"]]],[\"0\",\"uri\",\"Age\",\"range\",[[[0,50],\"btcfs://b2f4560f17679d3e3fca66209ac425c660d28a252ef72444c3325c6eb0364393i0\"],[[51,100],\"btcfs://eb3910b3e32a5ed9460bd0d75168c01ba1b8f00cc0faf83e4d8b67b48ea79676i0\"],[[\"*\"],\"btcfs://11b6303eb7d887d7ade459ac27959754cd55f9f9e50345ced8e1e8f47f4581fai0\"]]],[\"0\",\"uri\",\"Score\",\"range\",[[[0,1000],\"btcfs://11d6cc654f4c0759bfee520966937a4304db2b33880c88c2a6c649e30c7b9aaei0\"],[[\"*\"],\"btcfs://e1484915b27e45b120239080fe5032580550ff9ff759eb26ee86bf8aaf90068bi0\"]]],[\"1\",\"uri\",\"Value\",\"range\",[[[0,100000],\"btcfs://11d6cc654f4c0759bfee520966937a4304db2b33880c88c2a6c649e30c7b9aaei0\"],[[\"*\"],\"btcfs://e1484915b27e45b120239080fe5032580550ff9ff759eb26ee86bf8aaf90068bi0\"]]]]";

    let parameters = dobs_parse_parameters(2, Some(dob0_output), Some(rows(images_base)))
        .expect("parse parameters failed");
    let syscall_parameters =
        dobs_parse_syscall_parameters(&parameters).expect("parse syscall parameters failed");
    println!("{:?}", syscall_parameters);

    assert_eq!(syscall_parameters.len(), 2);
    assert_eq!(syscall_parameters[0].0, "0");
    assert_eq!(
        syscall_parameters[0].1,
        expected_item_vec(&[
            expected_item(0, "#FF0000"),
            expected_item(
                1,
                "btcfs://b2f4560f17679d3e3fca66209ac425c660d28a252ef72444c3325c6eb0364393i0"
            ),
            expected_item(
                1,
                "btcfs://11d6cc654f4c0759bfee520966937a4304db2b33880c88c2a6c649e30c7b9aaei0"
            ),
        ])
    );
    assert_eq!(syscall_parameters[1].0, "1");
    assert_eq!(
        syscall_parameters[1].1,
        expected_item_vec(&[expected_item(
            1,
            "btcfs://e1484915b27e45b120239080fe5032580550ff9ff759eb26ee86bf8aaf90068bi0"
        )])
    );
}

#[test]
fn test_basic_trait_schema_encode_decode() {
    let traits = vec![
        TraitSchema::new(
            "0",
            ImageType::ColorCode,
            "Name",
            Pattern::Options,
            Some(vec![
                (DOB0TraitValue::String("Ethan".to_owned()), "#FF0000".to_owned()),
                (DOB0TraitValue::String("Alice".to_owned()), "#0000FF".to_owned()),
                (DOB0TraitValue::String("Bob".to_owned()), "#00FF00".to_owned()),
                (DOB0TraitValue::Any, "#FFFFFF".to_owned()),
            ]),
        ),
        TraitSchema::new(
            "0",
            ImageType::URI,
            "Age",
            Pattern::Range,
            Some(vec![
                (
                    DOB0TraitValue::Range(0, 50),
                    "btcfs://b2f4560f17679d3e3fca66209ac425c660d28a252ef72444c3325c6eb0364393i0"
                        .to_owned(),
                ),
                (
                    DOB0TraitValue::Range(51, 100),
                    "btcfs://eb3910b3e32a5ed9460bd0d75168c01ba1b8f00cc0faf83e4d8b67b48ea79676i0"
                        .to_owned(),
                ),
                (
                    DOB0TraitValue::Any,
                    "btcfs://11b6303eb7d887d7ade459ac27959754cd55f9f9e50345ced8e1e8f47f4581fai0"
                        .to_owned(),
                ),
            ]),
        ),
        TraitSchema::new(
            "0",
            ImageType::URI,
            "Score",
            Pattern::Range,
            Some(vec![
                (
                    DOB0TraitValue::Range(0, 1000),
                    "btcfs://11d6cc654f4c0759bfee520966937a4304db2b33880c88c2a6c649e30c7b9aaei0"
                        .to_owned(),
                ),
                (
                    DOB0TraitValue::Any,
                    "btcfs://e1484915b27e45b120239080fe5032580550ff9ff759eb26ee86bf8aaf90068bi0"
                        .to_owned(),
                ),
            ]),
        ),
        TraitSchema::new(
            "1",
            ImageType::URI,
            "Value",
            Pattern::Range,
            Some(vec![
                (
                    DOB0TraitValue::Range(0, 100000),
                    "btcfs://11d6cc654f4c0759bfee520966937a4304db2b33880c88c2a6c649e30c7b9aaei0"
                        .to_owned(),
                ),
                (
                    DOB0TraitValue::Any,
                    "btcfs://e1484915b27e45b120239080fe5032580550ff9ff759eb26ee86bf8aaf90068bi0"
                        .to_owned(),
                ),
            ]),
        ),
    ];
    let encoded = traits.iter().map(TraitSchema::encode).collect::<Vec<_>>();
    println!("{:?}\n", encoded);
    let decoded = decode_trait_schema(encoded).expect("decode");
    assert_eq!(traits, decoded);
}

#[test]
fn round_trip_keeps_raw_image_entries() {
    let traits = vec![
        TraitSchema::new("2", ImageType::RawImage, "Pic", Pattern::Raw, None),
        TraitSchema::new(
            "2",
            ImageType::URI,
            "Age",
            Pattern::Options,
            Some(vec![
                (DOB0TraitValue::Number(7), "a".to_owned()),
                (DOB0TraitValue::Range(1, 9), "b".to_owned()),
            ]),
        ),
    ];
    let encoded = traits.iter().map(TraitSchema::encode).collect::<Vec<_>>();
    assert_eq!(decode_trait_schema(encoded).unwrap(), traits);
}

#[test]
fn decode_reads_every_key_shape() {
    let decoded = decode_trait_schema(rows(
        "[[\"x\",\"uri\",\"T\",\"options\",[[5,\"five\"],[\"s\",\"str\"],[[1,3],\"range\"],[[\"*\"],\"any\"]]]]",
    ))
    .unwrap();
    assert_eq!(
        decoded,
        vec![TraitSchema::new(
            "x",
            ImageType::URI,
            "T",
            Pattern::Options,
            Some(vec![
                (DOB0TraitValue::Number(5), "five".to_owned()),
                (DOB0TraitValue::String("s".to_owned()), "str".to_owned()),
                (DOB0TraitValue::Range(1, 3), "range".to_owned()),
                (DOB0TraitValue::Any, "any".to_owned()),
            ]),
        )]
    );
}

#[test]
fn decode_without_table_gives_none() {
    let decoded = decode_trait_schema(rows("[[\"x\",\"image\",\"T\",\"raw\"]]")).unwrap();
    assert_eq!(
        decoded,
        vec![TraitSchema::new("x", ImageType::RawImage, "T", Pattern::Raw, None)]
    );
}

#[test]
fn decode_empty_schema() {
    assert_eq!(decode_trait_schema(Vec::new()).unwrap(), Vec::new());
}

fn schema_error(text: &str) -> Error {
    decode_trait_schema(rows(text)).unwrap_err()
}

#[test]
fn schema_errors() {
    assert_eq!(
        schema_error("[[\"x\",\"color\",\"T\"]]"),
        Error::SchemaInsufficientElements
    );
    assert_eq!(
        schema_error("[[1,\"color\",\"T\",\"options\"]]"),
        Error::SchemaInvalidName
    );
    assert_eq!(
        schema_error("[[\"x\",2,\"T\",\"options\"]]"),
        Error::SchemaInvalidType
    );
    assert_eq!(
        schema_error("[[\"x\",\"colour\",\"T\",\"options\"]]"),
        Error::SchemaTypeMismatch
    );
    assert_eq!(
        schema_error("[[\"x\",\"color\",null,\"options\"]]"),
        Error::SchemaInvalidTraitName
    );
    assert_eq!(
        schema_error("[[\"x\",\"color\",\"T\",[]]]"),
        Error::SchemaInvalidPattern
    );
    assert_eq!(
        schema_error("[[\"x\",\"color\",\"T\",\"raw\"]]"),
        Error::SchemaPatternMismatch
    );
    assert_eq!(
        schema_error("[[\"x\",\"image\",\"T\",\"options\"]]"),
        Error::SchemaPatternMismatch
    );
    assert_eq!(
        schema_error("[[\"x\",\"color\",\"T\",\"sorted\"]]"),
        Error::SchemaPatternMismatch
    );
    assert_eq!(
        schema_error("[[\"x\",\"color\",\"T\",\"options\",{}]]"),
        Error::SchemaInvalidArgs
    );
    assert_eq!(
        schema_error("[[\"x\",\"color\",\"T\",\"options\",[[\"a\"]]]]"),
        Error::SchemaInvalidArgsElement
    );
    assert_eq!(
        schema_error("[[\"x\",\"color\",\"T\",\"options\",[[\"a\",1]]]]"),
        Error::SchemaInvalidArgsElement
    );
    assert_eq!(
        schema_error("[[\"x\",\"color\",\"T\",\"options\",[[[1,\"b\"],\"c\"]]]]"),
        Error::SchemaInvalidArgsElement
    );
    assert_eq!(
        schema_error("[[\"x\",\"color\",\"T\",\"options\",[[-1,\"c\"]]]]"),
        Error::SchemaInvalidArgsElement
    );
    assert_eq!(
        schema_error("[[\"x\",\"color\",\"T\",\"options\",[[true,\"c\"]]]]"),
        Error::SchemaInvalidArgsElement
    );
}

#[test]
fn first_failing_row_decides_the_error() {
    assert_eq!(
        schema_error("[[\"x\",\"color\",\"T\",\"options\"],[\"y\"],[1,\"color\",\"T\",\"options\"]]"),
        Error::SchemaInsufficientElements
    );
}

#[test]
fn parameter_errors() {
    assert_eq!(
        dobs_parse_parameters(1, Some(Vec::new()), Some(Vec::new())).unwrap_err(),
        Error::ParseInvalidArgCount
    );
    assert_eq!(
        dobs_parse_parameters(2, None, Some(Vec::new())).unwrap_err(),
        Error::ParseInvalidDOB0Output
    );
    assert_eq!(
        dobs_parse_parameters(2, Some(Vec::new()), None).unwrap_err(),
        Error::ParseInvalidTraitsBase
    );
    assert_eq!(
        dobs_parse_parameters(2, Some(Vec::new()), Some(rows("[[\"x\"]]"))).unwrap_err(),
        Error::SchemaInsufficientElements
    );
}

#[test]
fn error_codes() {
    assert_eq!(Error::ParseInvalidArgCount.code(), 1);
    assert_eq!(Error::ParseInvalidTraitsBase.code(), 3);
    assert_eq!(Error::SchemaInvalidParsedTraitType.code(), 13);
    assert_eq!(Error::DecodeInvalidRawValue.code(), 15);
    assert_eq!(Error::DecodeBadColorCodeFormat.code(), 17);
}

#[test]
fn scalar_accessors() {
    assert_eq!(string_trait("a").get_string().unwrap(), "a");
    assert_eq!(
        ParsedTrait::Number(3).get_string().unwrap_err(),
        Error::SchemaInvalidParsedTraitType
    );
    assert_eq!(ParsedTrait::Number(3).get_number().unwrap(), 3);
    assert_eq!(
        string_trait("a").get_number().unwrap_err(),
        Error::SchemaInvalidParsedTraitType
    );
}

#[test]
fn lookup_takes_first_output_of_the_name() {
    let outs = vec![
        output("A", vec![ParsedTrait::Number(1), ParsedTrait::Number(2)]),
        output("A", vec![ParsedTrait::Number(3)]),
    ];
    assert_eq!(get_dob0_value_by_name("A", &outs), Some(ParsedTrait::Number(1)));
    assert_eq!(get_dob0_value_by_name("B", &outs), None);
    let empty_first = vec![output("A", vec![]), output("A", vec![ParsedTrait::Number(3)])];
    assert_eq!(get_dob0_value_by_name("A", &empty_first), None);
}

#[test]
fn range_bounds_are_inclusive() {
    let table = vec![(DOB0TraitValue::Range(10, 20), "in".to_owned())];
    for (v, expected) in [(9, None), (10, Some("in")), (15, Some("in")), (20, Some("in")), (21, None)] {
        assert_eq!(
            get_dob1_value_by_dob0_value(&table, ParsedTrait::Number(v)).unwrap(),
            expected.map(|s| s.to_owned())
        );
    }
}

#[test]
fn wildcard_wins_over_later_keys() {
    let table = vec![
        (DOB0TraitValue::String("a".to_owned()), "A".to_owned()),
        (DOB0TraitValue::Any, "ANY".to_owned()),
        (DOB0TraitValue::String("b".to_owned()), "B".to_owned()),
    ];
    assert_eq!(
        get_dob1_value_by_dob0_value(&table, string_trait("b")).unwrap(),
        Some("ANY".to_owned())
    );
    assert_eq!(
        get_dob1_value_by_dob0_value(&table, string_trait("a")).unwrap(),
        Some("A".to_owned())
    );
    let any_first = vec![
        (DOB0TraitValue::Any, "ANY".to_owned()),
        (DOB0TraitValue::Range(0, 5), "R".to_owned()),
    ];
    assert_eq!(
        get_dob1_value_by_dob0_value(&any_first, ParsedTrait::Number(3)).unwrap(),
        Some("ANY".to_owned())
    );
}

#[test]
fn key_kind_mismatch_is_an_error() {
    let table = vec![
        (DOB0TraitValue::Number(1), "one".to_owned()),
        (DOB0TraitValue::String("x".to_owned()), "x".to_owned()),
    ];
    assert_eq!(
        get_dob1_value_by_dob0_value(&table, string_trait("x")).unwrap_err(),
        Error::SchemaInvalidParsedTraitType
    );
    assert_eq!(
        get_dob1_value_by_dob0_value(&table, ParsedTrait::Number(1)).unwrap(),
        Some("one".to_owned())
    );
    assert_eq!(
        get_dob1_value_by_dob0_value(&table, ParsedTrait::Number(2)).unwrap_err(),
        Error::SchemaInvalidParsedTraitType
    );
}

#[test]
fn no_matching_key_gives_none() {
    let table = vec![(DOB0TraitValue::Number(1), "one".to_owned())];
    assert_eq!(
        get_dob1_value_by_dob0_value(&table, ParsedTrait::Number(2)).unwrap(),
        None
    );
    assert_eq!(
        get_dob1_value_by_dob0_value(&Vec::new(), ParsedTrait::Number(2)).unwrap(),
        None
    );
}

#[test]
fn raw_pattern_passes_strings_and_rejects_numbers() {
    assert_eq!(
        match_value(Pattern::Raw, &None, string_trait("data:xyz")).unwrap(),
        Some("data:xyz".to_owned())
    );
    assert_eq!(
        match_value(Pattern::Raw, &None, ParsedTrait::Number(4)).unwrap_err(),
        Error::DecodeInvalidRawValue
    );
}

#[test]
fn options_without_table_is_an_error() {
    assert_eq!(
        match_value(Pattern::Options, &None, string_trait("a")).unwrap_err(),
        Error::DecodeInvalidOptionArgs
    );
    assert_eq!(
        match_value(Pattern::Range, &None, ParsedTrait::Number(1)).unwrap_err(),
        Error::DecodeInvalidOptionArgs
    );
}

#[test]
fn item_encoding_is_exact() {
    assert_eq!(
        encode_item(ImageType::ColorCode, &"#FF0000".to_owned()),
        vec![0, 0, 0, 0, 7, 0, 0, 0, b'#', b'F', b'F', b'0', b'0', b'0', b'0']
    );
    assert_eq!(
        encode_item(ImageType::RawImage, &"é".to_owned()),
        vec![2, 0, 0, 0, 2, 0, 0, 0, 0xc3, 0xa9]
    );
    assert_eq!(encode_item_vec(&Vec::new()), vec![4, 0, 0, 0]);
    assert_eq!(
        encode_item_vec(&vec![vec![9, 9], vec![7]]),
        vec![15, 0, 0, 0, 12, 0, 0, 0, 14, 0, 0, 0, 9, 9, 7]
    );
}

#[test]
fn scenario_matching_name_selects_its_color() {
    let result = run(
        vec![output("Name", vec![string_trait("Ethan")])],
        COLOR_TABLE,
    )
    .unwrap();
    assert_eq!(
        result,
        vec![(
            "0".to_owned(),
            expected_item_vec(&[expected_item(0, "#FF0000")])
        )]
    );
}

#[test]
fn scenario_unmatched_name_gives_empty_image() {
    let schema = "[[\"0\",\"color\",\"Name\",\"options\",[[\"Alice\",\"#0000FF\"],[\"Ethan\",\"#FF0000\"]]]]";
    let result = run(vec![output("Name", vec![string_trait("Zed")])], schema).unwrap();
    assert_eq!(result, vec![("0".to_owned(), expected_item_vec(&[]))]);
}

#[test]
fn scenario_wildcard_catches_unknown_name() {
    let result = run(vec![output("Name", vec![string_trait("Zed")])], COLOR_TABLE).unwrap();
    assert_eq!(
        result,
        vec![(
            "0".to_owned(),
            expected_item_vec(&[expected_item(0, "#FFFFFF")])
        )]
    );
}

#[test]
fn scenario_raw_then_missing_trait_truncates_group() {
    let schema = "[[\"1\",\"uri\",\"Link\",\"raw\"],[\"1\",\"color\",\"Missing\",\"options\",[[[\"*\"],\"#000000\"]]]]";
    let result = run(vec![output("Link", vec![string_trait("btcfs://abc")])], schema).unwrap();
    assert_eq!(
        result,
        vec![(
            "1".to_owned(),
            expected_item_vec(&[expected_item(1, "btcfs://abc")])
        )]
    );
}

#[test]
fn missing_first_trait_gives_empty_group_and_skips_rest() {
    let schema = "[[\"a\",\"uri\",\"Missing\",\"raw\"],[\"a\",\"uri\",\"Num\",\"raw\"],[\"b\",\"uri\",\"Link\",\"raw\"]]";
    let result = run(
        vec![
            output("Num", vec![ParsedTrait::Number(1)]),
            output("Link", vec![string_trait("x")]),
        ],
        schema,
    )
    .unwrap();
    assert_eq!(
        result,
        vec![
            ("a".to_owned(), expected_item_vec(&[])),
            ("b".to_owned(), expected_item_vec(&[expected_item(1, "x")])),
        ]
    );
}

#[test]
fn separated_runs_of_one_name_are_separate_images() {
    let schema = "[[\"a\",\"uri\",\"L\",\"raw\"],[\"b\",\"uri\",\"L\",\"raw\"],[\"a\",\"image\",\"L\",\"raw\"]]";
    let result = run(vec![output("L", vec![string_trait("v")])], schema).unwrap();
    assert_eq!(
        result,
        vec![
            ("a".to_owned(), expected_item_vec(&[expected_item(1, "v")])),
            ("b".to_owned(), expected_item_vec(&[expected_item(1, "v")])),
            ("a".to_owned(), expected_item_vec(&[expected_item(2, "v")])),
        ]
    );
}

#[test]
fn hard_error_in_later_group_aborts_everything() {
    let schema = "[[\"a\",\"uri\",\"L\",\"raw\"],[\"b\",\"uri\",\"N\",\"raw\"]]";
    let result = run(
        vec![
            output("L", vec![string_trait("v")]),
            output("N", vec![ParsedTrait::Number(5)]),
        ],
        schema,
    );
    assert_eq!(result.unwrap_err(), Error::DecodeInvalidRawValue);
}

#[test]
fn empty_schema_gives_no_images() {
    let result = run(vec![output("L", vec![string_trait("v")])], "[]").unwrap();
    assert!(result.is_empty());
}
