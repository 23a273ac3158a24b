use bedrock::parser::{parse_shader, Attribute, FieldDecl, ParseErrorKind, ShaderParser, Tag, classify_tag};
use bedrock::schema::EntryVariant;
use bedrock::text::{comma_tuple, contains, inner_args, arg_value, key_val, parse_decimal, transform_name};

fn attr(name: &str, tokens: &str) -> Attribute {
    Attribute { name: name.to_string(), tokens: tokens.to_string() }
}

fn field(name: &str, ty: &str, attrs: Vec<Attribute>) -> FieldDecl {
    FieldDecl { name: name.to_string(), ty: ty.to_string(), attrs }
}

fn main_shader_fields() -> Vec<FieldDecl> {
    vec![
        field(
            "input_texture",
            "InputTexture",
            vec![attr("group", "(fragment)"), attr("texture2d", "(width = 1920, height = 1200)")],
        ),
        field("flags", "Flags", vec![attr("uniform", "(size = 8)")]),
        field("output", "ShaderOutput", vec![attr("output", "")]),
        field("output2", "ShaderOutput", vec![attr("output", "")]),
    ]
}

#[test]
fn extracts_main_shader_declaration() {
    let shader = parse_shader("shader.wgsl".to_string(), &main_shader_fields()).unwrap();
    assert_eq!(shader.path, "shader.wgsl");
    assert_eq!(shader.bind_groups.len(), 1);
    assert_eq!(shader.outputs.len(), 2);
    assert_eq!(shader.vertex_buffers.len(), 0);
    let g = &shader.bind_groups[0];
    assert_eq!(g.ident, "group_0");
    assert!(g.fragment);
    assert!(!g.vertex);
    assert_eq!(g.entries.len(), 2);
    assert_eq!(g.entries[0].ident, "input_texture");
    assert_eq!(g.entries[0].ty, "InputTexture");
    assert_eq!(g.entries[0].variant, EntryVariant::Texture2D { width: 1920, height: 1200 });
    assert_eq!(g.entries[1].ident, "flags");
    assert_eq!(g.entries[1].variant, EntryVariant::Uniform { size: 8 });
}

#[test]
fn tokens_with_spaced_commas_parse_the_same() {
    assert_eq!(
        classify_tag("texture2d", "(width = 1920 , height = 1200)"),
        Ok(Tag::Texture2D { width: 1920, height: 1200 })
    );
}

#[test]
fn groups_are_numbered_in_order() {
    let fields = vec![
        field("a", "A", vec![attr("group", "(vertex)"), attr("uniform", "(size = 4)")]),
        field("b", "B", vec![attr("group", "(fragment)"), attr("uniform", "(size = 4)")]),
        field("c", "C", vec![attr("group", "(vertex, fragment)")]),
    ];
    let shader = parse_shader("s.wgsl".to_string(), &fields).unwrap();
    assert_eq!(shader.bind_groups.len(), 3);
    assert_eq!(shader.bind_groups[0].ident, "group_0");
    assert_eq!(shader.bind_groups[1].ident, "group_1");
    assert_eq!(shader.bind_groups[2].ident, "group_2");
    assert!(shader.bind_groups[0].vertex && !shader.bind_groups[0].fragment);
    assert!(!shader.bind_groups[1].vertex && shader.bind_groups[1].fragment);
    assert!(shader.bind_groups[2].vertex && shader.bind_groups[2].fragment);
}

#[test]
fn group_visibility_is_union_of_stage_words() {
    assert_eq!(classify_tag("group", "(vertex)"), Ok(Tag::Group { vertex: true, fragment: false }));
    assert_eq!(classify_tag("group", "(fragment)"), Ok(Tag::Group { vertex: false, fragment: true }));
    assert_eq!(
        classify_tag("group", "(vertex_fragment)"),
        Ok(Tag::Group { vertex: true, fragment: true })
    );
    assert_eq!(classify_tag("group", ""), Err(ParseErrorKind::MissingStage));
    assert_eq!(classify_tag("group", "(compute)"), Err(ParseErrorKind::MissingStage));
}

#[test]
fn vertex_tag_declares_a_buffer_slot() {
    let mut p = ShaderParser::new();
    p.process_field(&field("v", "V", vec![attr("vertex", "")])).unwrap();
    assert_eq!(p.vertex_buffers.len(), 1);
    assert_eq!(p.bind_groups.len(), 0);
}

#[test]
fn unknown_tag_is_rejected_naming_the_field() {
    let fields = vec![field("x", "X", vec![attr("frobnicate", "")])];
    let e = parse_shader("s".to_string(), &fields).unwrap_err();
    assert_eq!(e.kind, ParseErrorKind::UnknownTag);
    assert_eq!(e.field, "x");
}

#[test]
fn orphan_entry_is_rejected() {
    let fields = vec![field("t", "T", vec![attr("texture2d", "(width = 4, height = 4)")])];
    let e = parse_shader("s".to_string(), &fields).unwrap_err();
    assert_eq!(e.kind, ParseErrorKind::OrphanEntry);
    assert_eq!(e.field, "t");
}

#[test]
fn missing_argument_is_rejected() {
    let fields = vec![
        field("g", "G", vec![attr("group", "(fragment)")]),
        field("t", "T", vec![attr("texture2d", "(width = 4)")]),
    ];
    let e = parse_shader("s".to_string(), &fields).unwrap_err();
    assert_eq!(e.kind, ParseErrorKind::MissingArgument);
    assert_eq!(e.field, "t");
}

#[test]
fn non_numeric_argument_is_rejected() {
    assert_eq!(classify_tag("uniform", "(size = abc)"), Err(ParseErrorKind::InvalidNumber));
    assert_eq!(classify_tag("uniform", "(size = )"), Err(ParseErrorKind::InvalidNumber));
    assert_eq!(
        classify_tag("texture2d", "(width = 4294967296, height = 1)"),
        Err(ParseErrorKind::InvalidNumber)
    );
}

#[test]
fn malformed_arguments_are_rejected() {
    assert_eq!(classify_tag("uniform", ""), Err(ParseErrorKind::MalformedArguments));
    assert_eq!(classify_tag("uniform", "(size)"), Err(ParseErrorKind::MalformedArguments));
    assert_eq!(classify_tag("uniform", "(size=8)"), Err(ParseErrorKind::MalformedArguments));
}

#[test]
fn storage_and_sampler_are_unsupported() {
    assert_eq!(classify_tag("storage", "(size = 8)"), Err(ParseErrorKind::UnsupportedKind));
    assert_eq!(classify_tag("sampler", ""), Err(ParseErrorKind::UnsupportedKind));
}

#[test]
fn error_leaves_earlier_fields_unreported() {
    let fields = vec![
        field("g", "G", vec![attr("group", "(fragment)")]),
        field("bad", "B", vec![attr("uniform", "(size = 8)"), attr("nope", "")]),
        field("later", "L", vec![attr("nope2", "")]),
    ];
    let e = parse_shader("s".to_string(), &fields).unwrap_err();
    assert_eq!(e.field, "bad");
    assert_eq!(e.kind, ParseErrorKind::UnknownTag);
}

#[test]
fn comma_tuple_splits_items() {
    assert_eq!(comma_tuple("width = 1920, height = 1200"), vec!["width = 1920", "height = 1200"]);
    assert_eq!(comma_tuple("a,b"), vec!["a"]);
    assert_eq!(comma_tuple(""), vec![""]);
    assert_eq!(comma_tuple("x) y"), vec!["x"]);
}

#[test]
fn key_val_splits_pairs() {
    assert_eq!(key_val("size = 16"), Some(("size".to_string(), "16".to_string())));
    assert_eq!(key_val("size = 16 "), Some(("size".to_string(), "16".to_string())));
    assert_eq!(key_val("size=16"), None);
    assert_eq!(key_val("size : 16"), None);
}

#[test]
fn inner_args_strips_parentheses() {
    let args = inner_args("(width = 256, height = 128)").unwrap();
    assert_eq!(args.len(), 2);
    assert_eq!(arg_value(&args, "width"), Some("256".to_string()));
    assert_eq!(arg_value(&args, "height"), Some("128".to_string()));
    assert_eq!(arg_value(&args, "depth"), None);
    assert!(inner_args("(").is_none());
}

#[test]
fn repeated_key_takes_last_value() {
    let args = inner_args("(size = 4, size = 8)").unwrap();
    assert_eq!(arg_value(&args, "size"), Some("8".to_string()));
    assert_eq!(classify_tag("uniform", "(size = 4, size = 8)"), Ok(Tag::Uniform { size: 8 }));
}

#[test]
fn parse_decimal_bounds() {
    assert_eq!(parse_decimal("1920", u32::MAX as u64), Some(1920));
    assert_eq!(parse_decimal("4294967295", u32::MAX as u64), Some(4294967295));
    assert_eq!(parse_decimal("4294967296", u32::MAX as u64), None);
    assert_eq!(parse_decimal("18446744073709551615", u64::MAX), Some(u64::MAX));
    assert_eq!(parse_decimal("18446744073709551616", u64::MAX), None);
    assert_eq!(parse_decimal("", u64::MAX), None);
    assert_eq!(parse_decimal("12a", u64::MAX), None);
}

#[test]
fn contains_finds_runs() {
    assert!(contains("(vertex, fragment)", "fragment"));
    assert!(!contains("(vertex)", "fragment"));
    assert!(contains("abc", ""));
}

#[test]
fn transform_name_makes_snake_case() {
    assert_eq!(transform_name("MainShader"), "main_shader");
    assert_eq!(transform_name("HTTPServer"), "h_t_t_p_server");
    assert_eq!(transform_name("Already_Snake"), "already_snake");
    assert_eq!(transform_name("plain"), "plain");
    assert_eq!(transform_name(""), "");
}
