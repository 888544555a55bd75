use fixed_width::names::NameMap;
use fixed_width::spec::resolver::IdFieldResolver;
use fixed_width::spec::stream::VecStream;
use fixed_width::spec::{Builder, FieldSpec, FieldSpecBuilder, PaddingDirection, RecordSpec, Spec, SpecBuilder};

fn test_spec() -> Spec {
    SpecBuilder::new()
        .with_record("record1")
        .with_line_ending("\n")
        .with_field("field1")
        .with_length(4)
        .with_padding("dsasd")
        .with_padding_direction(PaddingDirection::Left)
        .end()
        .with_field("field2")
        .string()
        .with_length(5)
        .with_default("def")
        .end()
        .with_field("field3")
        .with_length(36)
        .with_padding("xcvcxv")
        .with_padding_direction(PaddingDirection::Right)
        .end()
        .end()
        .with_record("record2")
        .with_line_ending("\n")
        .with_field("field1")
        .with_length(3)
        .with_padding("dsasd")
        .with_padding_direction(PaddingDirection::Left)
        .end()
        .with_field("field2")
        .with_length(4)
        .with_padding("sdf")
        .with_padding_direction(PaddingDirection::Right)
        .with_default("defa")
        .end()
        .with_field("field3")
        .with_length(27)
        .with_padding("xcvcxv")
        .with_padding_direction(PaddingDirection::Right)
        .end()
        .with_field("field4")
        .with_length(8)
        .with_padding("sdfsd")
        .with_padding_direction(PaddingDirection::Left)
        .end()
        .end()
        .with_record("record3")
        .with_line_ending("\n")
        .end()
        .build()
        .unwrap()
}

fn field(length: usize, padding: &str, padding_direction: PaddingDirection, default: Option<&str>) -> FieldSpec {
    FieldSpec {
        length,
        padding: padding.as_bytes().to_owned(),
        padding_direction,
        default: default.map(|d| d.as_bytes().to_owned()),
    }
}

#[test]
fn mod_build() {
    let spec = test_spec();
    let mut record_specs = NameMap::new();
    let mut field_specs = NameMap::new();
    field_specs.insert("field1".to_string(), field(4, "dsasd", PaddingDirection::Left, None));
    field_specs.insert("field2".to_string(), field(5, " ", PaddingDirection::Right, Some("def")));
    field_specs.insert("field3".to_string(), field(36, "xcvcxv", PaddingDirection::Right, None));
    record_specs.insert("record1".to_string(), RecordSpec { line_ending: "\n".as_bytes().to_owned(), field_specs });
    let mut field_specs = NameMap::new();
    field_specs.insert("field1".to_string(), field(3, "dsasd", PaddingDirection::Left, None));
    field_specs.insert("field2".to_string(), field(4, "sdf", PaddingDirection::Right, Some("defa")));
    field_specs.insert("field3".to_string(), field(27, "xcvcxv", PaddingDirection::Right, None));
    field_specs.insert("field4".to_string(), field(8, "sdfsd", PaddingDirection::Left, None));
    record_specs.insert("record2".to_string(), RecordSpec { line_ending: "\n".as_bytes().to_owned(), field_specs });
    record_specs.insert(
        "record3".to_string(),
        RecordSpec { line_ending: "\n".as_bytes().to_owned(), field_specs: NameMap::new() },
    );
    assert_eq!(Spec { record_specs }, spec);
    assert_eq!(
        FieldSpecBuilder::new()
            .with_padding("0".to_string())
            .with_padding_direction(PaddingDirection::Left)
            .with_length(0)
            .build()
            .unwrap(),
        FieldSpecBuilder::new().number().with_length(0).build().unwrap()
    );
    assert_eq!(
        FieldSpecBuilder::new()
            .with_padding(" ".as_bytes().to_owned())
            .with_padding_direction(PaddingDirection::Right)
            .with_length(0)
            .build()
            .unwrap(),
        FieldSpecBuilder::new().string().with_length(0).build().unwrap()
    );
}

#[test]
fn mod_field_range() {
    let spec = test_spec();
    let record_spec = spec.record_specs.get("record1").unwrap();
    assert_eq!(Some(0..4), record_spec.field_range("field1"));
    assert_eq!(Some(4..9), record_spec.field_range(&"field2".to_string()));
    assert_eq!(Some(9..45), record_spec.field_range(&"field3".to_string()));
    assert_eq!(None, record_spec.field_range(&"field4".to_string()));
}

#[test]
fn mod_len() {
    let spec = test_spec();
    assert_eq!(45, spec.record_specs.get("record1").unwrap().len());
    assert_eq!(42, spec.record_specs.get("record2").unwrap().len());
    assert_eq!(0, spec.record_specs.get("record3").unwrap().len());
}

#[test]
fn id_field_resolver() {
    assert_eq!("$id", IdFieldResolver::new().id_field());
    assert_eq!("field", IdFieldResolver::new_with_field("field").id_field());
}

#[test]
fn next() {
    let mut stream = VecStream::from(vec!["record1", "record2"]);
    let specs = SpecBuilder::new().with_record("record1").end().with_record("record2").end().build().unwrap().record_specs;
    assert_eq!(Some("record1"), stream.next(&specs).unwrap());
    assert_eq!(Some("record2"), stream.next(&specs).unwrap());
    assert_eq!(None, stream.next(&specs).unwrap());
}

#[test]
fn fields_are_laid_out_in_name_order() {
    let spec = SpecBuilder::new()
        .with_record("record")
        .with_field("b")
        .string()
        .with_length(2)
        .end()
        .with_field("a")
        .string()
        .with_length(3)
        .end()
        .end()
        .build()
        .unwrap();
    let record_spec = spec.record_specs.get("record").unwrap();
    assert_eq!(Some(0..3), record_spec.field_range("a"));
    assert_eq!(Some(3..5), record_spec.field_range("b"));
}

#[test]
fn missing_length_fails_the_build() {
    let built = FieldSpecBuilder::new().string().build();
    match built {
        Err(fixed_width::spec::Error::FieldRequiredToBuild(field)) => assert_eq!("length", field),
        _ => panic!("a field without a length should not build"),
    }
    let spec = SpecBuilder::new().with_record("record").with_field("field").string().end().end().build();
    match spec {
        Err(fixed_width::spec::Error::SubBuilderErrors(errors)) => {
            assert_eq!(1, errors.len());
            assert_eq!("record", errors[0].0);
        },
        _ => panic!("a spec with a broken field should not build"),
    }
}

#[test]
fn filler_defaults_to_spaces() {
    let field = FieldSpecBuilder::new().filler(3).build().unwrap();
    assert_eq!(3, field.length);
    assert_eq!(Some(b"   ".to_vec()), field.default);
    assert_eq!(b" ".to_vec(), field.padding);
    assert_eq!(PaddingDirection::Right, field.padding_direction);
}

#[test]
fn spec_builder_reports_the_error_of_each_failed_record() {
    let result = SpecBuilder::new()
        .with_record("a")
        .with_field("f")
        .with_padding_direction(PaddingDirection::Left)
        .end()
        .end()
        .with_record("b")
        .with_field("g")
        .with_length(2)
        .end()
        .end()
        .with_record("c")
        .end()
        .build();
    match result {
        Err(fixed_width::spec::Error::SubBuilderErrors(errors)) => {
            assert_eq!(errors.len(), 2);
            assert_eq!(errors[0].0, "a");
            assert_eq!(
                errors[0].1,
                fixed_width::spec::Error::SubBuilderErrors(vec![(
                    "f".to_string(),
                    fixed_width::spec::Error::FieldRequiredToBuild("length")
                )])
            );
            assert_eq!(errors[1].0, "b");
            assert_eq!(
                errors[1].1,
                fixed_width::spec::Error::SubBuilderErrors(vec![(
                    "g".to_string(),
                    fixed_width::spec::Error::FieldRequiredToBuild("padding")
                )])
            );
        },
        _ => panic!("two records cannot be built"),
    }
}

#[test]
fn added_parts_are_what_their_builders_build() {
    let built = SpecBuilder::new()
        .add_record(
            "r",
            fixed_width::spec::RecordSpecBuilder::new()
                .with_line_ending("\n")
                .add_field("f", FieldSpecBuilder::new().number().with_length(3))
                .add_field("g", field(2, "x", PaddingDirection::Right, Some("ab"))),
        )
        .build()
        .unwrap();
    let record = built.record_specs.get("r").unwrap();
    assert_eq!(record.line_ending, b"\n".to_vec());
    assert_eq!(record.field_specs.get("f"), Some(&field(3, "0", PaddingDirection::Left, None)));
    assert_eq!(record.field_specs.get("g"), Some(&field(2, "x", PaddingDirection::Right, Some("ab"))));
    assert_eq!(record.len(), 5);
}
