use waywallen::wayproto::protocol::parse_protocol;
use waywallen::wayproto::types::{ArgType, FdSpec, InboundKind};

#[test]
fn parse_trivial() {
    let src = r#"<?xml version="1.0"?>
        <protocol name="foo" version="1">
            <request name="hello" opcode="1">
                <arg name="x" type="u32"/>
            </request>
        </protocol>"#;
    let p = parse_protocol(src).unwrap();
    assert_eq!(p.name, "foo");
    assert_eq!(p.version, 1);
    assert_eq!(p.requests.len(), 1);
    assert_eq!(p.requests[0].name, "hello");
    assert_eq!(p.requests[0].opcode, 1);
    assert_eq!(p.requests[0].args[0].name, "x");
    assert_eq!(p.requests[0].args[0].ty, ArgType::U32);
}

#[test]
fn parse_all_types() {
    let src = r#"<protocol name="t" version="1">
        <event name="m" opcode="1">
            <arg name="a" type="u32"/>
            <arg name="b" type="i32"/>
            <arg name="c" type="u64"/>
            <arg name="d" type="i64"/>
            <arg name="e" type="f32"/>
            <arg name="f" type="f64"/>
            <arg name="g" type="string"/>
            <arg name="h" type="rect"/>
            <arg name="i" type="kv_list"/>
            <arg name="j" type="array" element="u32"/>
            <arg name="k" type="array" element="string"/>
        </event>
    </protocol>"#;
    let p = parse_protocol(src).unwrap();
    let m = &p.events[0];
    assert_eq!(m.args.len(), 11);
    assert_eq!(m.args[9].ty, ArgType::Array(Box::new(ArgType::U32)));
    assert_eq!(m.args[10].ty, ArgType::Array(Box::new(ArgType::String)));
}

#[test]
fn parse_fds() {
    let src = r#"<protocol name="t" version="1">
        <struct name="pool">
            <field name="count" type="u32"/>
            <field name="planes_per_buffer" type="u32"/>
        </struct>
        <event name="a" opcode="1"><fds count="1"/></event>
        <event name="b" opcode="2"><fds count="0"/></event>
        <event name="c" opcode="3">
            <arg name="pool" type="pool"/>
            <fds count_expr="pool.count * pool.planes_per_buffer"/>
        </event>
    </protocol>"#;
    let p = parse_protocol(src).unwrap();
    assert!(matches!(p.events[0].fds, FdSpec::Fixed(1)));
    assert!(matches!(p.events[1].fds, FdSpec::NoFds));
    match &p.events[2].fds {
        FdSpec::Product(parts) => {
            assert_eq!(
                parts,
                &vec![
                    "pool.count".to_string(),
                    "pool.planes_per_buffer".to_string()
                ]
            );
        }
        _ => panic!("expected Product"),
    }
}

#[test]
fn rejects_invalid_fd_field_paths() {
    let missing = r#"<protocol name="t" version="1">
        <struct name="pool"><field name="count" type="u32"/></struct>
        <event name="bind" opcode="1">
            <arg name="pool" type="pool"/>
            <fds count_expr="pool.missing"/>
        </event>
    </protocol>"#;
    assert!(parse_protocol(missing).is_err());

    let non_integer = r#"<protocol name="t" version="1">
        <struct name="pool"><field name="label" type="string"/></struct>
        <event name="bind" opcode="1">
            <arg name="pool" type="pool"/>
            <fds count_expr="pool.label"/>
        </event>
    </protocol>"#;
    assert!(parse_protocol(non_integer).is_err());
}

#[test]
fn comments_and_whitespace() {
    let src = r#"
        <!-- header comment -->
        <?xml version="1.0"?>
        <!-- another -->
        <protocol name="t" version="1">
            <!-- inside -->
            <request name="r" opcode="1"/>
        </protocol>"#;
    let p = parse_protocol(src).unwrap();
    assert_eq!(p.requests.len(), 1);
}

#[test]
fn parses_and_orders_named_structs() {
    let src = r#"<protocol name="t" version="1">
        <struct name="outer">
            <field name="inner" type="inner"/>
            <field name="enabled" type="bool"/>
        </struct>
        <struct name="inner">
            <field name="generation" type="u64"/>
        </struct>
        <event name="configured" opcode="1">
            <arg name="config" type="outer"/>
        </event>
    </protocol>"#;
    let p = parse_protocol(src).unwrap();
    assert_eq!(p.structs.len(), 2);
    assert_eq!(p.structs[0].name, "inner");
    assert_eq!(p.structs[1].name, "outer");
    assert_eq!(p.events[0].args[0].ty, ArgType::Named("outer".to_string()));
}

#[test]
fn parses_named_enums_in_structs_and_messages() {
    let src = r#"<protocol name="t" version="1">
        <enum name="effect_kind">
            <entry name="none" value="0"/>
            <entry name="blur" value="1"/>
        </enum>
        <struct name="config">
            <field name="kind" type="effect_kind"/>
        </struct>
        <event name="configured" opcode="1">
            <arg name="kind" type="effect_kind"/>
            <arg name="config" type="config"/>
        </event>
    </protocol>"#;
    let p = parse_protocol(src).unwrap();
    assert_eq!(p.enums.len(), 1);
    assert_eq!(p.enums[0].name, "effect_kind");
    assert_eq!(p.enums[0].entries[1].name, "blur");
    assert_eq!(p.enums[0].entries[1].value, 1);
    assert_eq!(
        p.structs[0].fields[0].ty,
        ArgType::Enum("effect_kind".to_string())
    );
    assert_eq!(
        p.events[0].args[0].ty,
        ArgType::Enum("effect_kind".to_string())
    );
}

#[test]
fn rejects_invalid_named_enums() {
    let duplicate_value = r#"<protocol name="t" version="1">
        <enum name="kind">
            <entry name="one" value="1"/>
            <entry name="other" value="1"/>
        </enum>
    </protocol>"#;
    assert!(parse_protocol(duplicate_value)
        .unwrap_err()
        .msg
        .contains("duplicate value"));

    let duplicate_type = r#"<protocol name="t" version="1">
        <enum name="config"><entry name="one" value="1"/></enum>
        <struct name="config"><field name="value" type="u32"/></struct>
    </protocol>"#;
    assert!(parse_protocol(duplicate_type)
        .unwrap_err()
        .msg
        .contains("both an enum and a struct"));
}

#[test]
fn rejects_unknown_and_recursive_structs() {
    let unknown = r#"<protocol name="t" version="1">
        <struct name="a"><field name="value" type="missing"/></struct>
    </protocol>"#;
    assert!(parse_protocol(unknown)
        .unwrap_err()
        .msg
        .contains("unknown type"));

    let recursive = r#"<protocol name="t" version="1">
        <struct name="a"><field name="value" type="b"/></struct>
        <struct name="b"><field name="value" type="a"/></struct>
    </protocol>"#;
    assert!(parse_protocol(recursive)
        .unwrap_err()
        .msg
        .contains("recursive struct reference"));
}

// ---- further cases ----

#[test]
fn error_messages_carry_positions_and_values() {
    let e = parse_protocol("<protocol name='t' version='1'").unwrap_err();
    assert_eq!(e.msg, "unterminated tag");
    assert_eq!(e.pos, 30);
    assert_eq!(e.to_string(), "parse error at byte 30: unterminated tag");

    let e = parse_protocol("<a></b>").unwrap_err();
    assert_eq!(e.msg, "mismatched close </b> vs <a>");
    assert_eq!(e.pos, 6);

    let e = parse_protocol("<other/>").unwrap_err();
    assert_eq!(e.msg, "root must be <protocol>, got <other>");
    assert_eq!(e.pos, 0);

    let e = parse_protocol(
        r#"<protocol name="t" version="1"><enum name="k"><entry name="a" value="7"/><entry name="b" value="+7"/></enum></protocol>"#,
    )
    .unwrap_err();
    assert_eq!(e.msg, "duplicate value 7 in enum k");
}

#[test]
fn version_and_opcode_ranges() {
    assert_eq!(
        parse_protocol(r#"<protocol name="t" version="4294967296"/>"#)
            .unwrap_err()
            .msg,
        "protocol version not u32"
    );
    assert_eq!(
        parse_protocol(r#"<protocol name="t" version="4294967295"/>"#)
            .unwrap()
            .version,
        4294967295
    );
    assert_eq!(
        parse_protocol(r#"<protocol name="t" version="1"><event name="e" opcode="65536"/></protocol>"#)
            .unwrap_err()
            .msg,
        "opcode not u16"
    );
}

#[test]
fn inbound_kind_follows_the_messages() {
    let p = parse_protocol(
        r#"<protocol name="t" version="2"><event_in name="x" opcode="0"/></protocol>"#,
    )
    .unwrap();
    assert_eq!(p.inbound_kind, InboundKind::EventIn);
    assert_eq!(p.requests.len(), 1);
    let e = parse_protocol(
        r#"<protocol name="t" version="2"><event_in name="x" opcode="0"/><request name="y" opcode="1"/></protocol>"#,
    )
    .unwrap_err();
    assert_eq!(e.msg, "protocol mixes <request> and <event_in>; pick exactly one");
    let p = parse_protocol(r#"<protocol name="t" version="2"/>"#).unwrap();
    assert_eq!(p.inbound_kind, InboundKind::Request);
}

#[test]
fn count_expr_operands_are_checked() {
    let e = parse_protocol(
        r#"<protocol name="t" version="1"><event name="e" opcode="1"><fds count_expr=" * "/></event></protocol>"#,
    )
    .unwrap_err();
    assert_eq!(e.msg, "empty count_expr");
    let e = parse_protocol(
        r#"<protocol name="t" version="1"><event name="e" opcode="1"><fds count_expr="a..b"/></event></protocol>"#,
    )
    .unwrap_err();
    assert_eq!(e.msg, "count_expr field not an ident path: a..b");
    let e = parse_protocol(
        r#"<protocol name="t" version="1"><event name="e" opcode="1"><arg name="n" type="u32"/><fds count_expr="n.x"/></event></protocol>"#,
    )
    .unwrap_err();
    assert_eq!(e.msg, "count_expr path n.x traverses non-struct field x");
}

#[test]
fn struct_chains_come_out_dependencies_first() {
    let src = r#"<protocol name="t" version="1">
        <struct name="a"><field name="b" type="b"/></struct>
        <struct name="c"><field name="x" type="u32"/></struct>
        <struct name="b"><field name="c" type="c"/><field name="again" type="c"/></struct>
        <struct name="d"><field name="y" type="u64"/></struct>
    </protocol>"#;
    let p = parse_protocol(src).unwrap();
    let names: Vec<&str> = p.structs.iter().map(|s| s.name.as_str()).collect();
    assert_eq!(names, vec!["c", "b", "a", "d"]);
}

fn ordered_names(src: &str) -> Vec<String> {
    let p = parse_protocol(src).unwrap();
    p.structs.iter().map(|s| s.name.clone()).collect()
}

#[test]
fn struct_order_does_not_depend_on_document_order() {
    let one = r#"<protocol name="t" version="1">
        <struct name="a"><field name="b" type="b"/></struct>
        <struct name="b"><field name="c" type="c"/></struct>
        <struct name="c"><field name="x" type="u32"/></struct>
        <struct name="d"><field name="y" type="u64"/></struct>
    </protocol>"#;
    let two = r#"<protocol name="t" version="1">
        <struct name="d"><field name="y" type="u64"/></struct>
        <struct name="c"><field name="x" type="u32"/></struct>
        <struct name="a"><field name="b" type="b"/></struct>
        <struct name="b"><field name="c" type="c"/></struct>
    </protocol>"#;
    assert_eq!(ordered_names(one), ordered_names(two));
    assert_eq!(ordered_names(one), vec!["c", "b", "a", "d"]);
}

#[test]
fn self_containing_struct_is_a_cycle() {
    let direct = r#"<protocol name="t" version="1">
        <struct name="a"><field name="me" type="a"/></struct>
    </protocol>"#;
    let e = parse_protocol(direct).unwrap_err();
    assert_eq!(e.msg, "recursive struct reference involving a");

    let through = r#"<protocol name="t" version="1">
        <struct name="x"><field name="v" type="u32"/></struct>
        <struct name="a"><field name="b" type="b"/></struct>
        <struct name="b"><field name="c" type="c"/></struct>
        <struct name="c"><field name="a" type="a"/></struct>
    </protocol>"#;
    let e = parse_protocol(through).unwrap_err();
    assert!(e.msg.starts_with("recursive struct reference involving "));

    let shared = r#"<protocol name="t" version="1">
        <struct name="leaf"><field name="v" type="u32"/></struct>
        <struct name="l"><field name="x" type="leaf"/></struct>
        <struct name="r"><field name="x" type="leaf"/></struct>
        <struct name="top"><field name="l" type="l"/><field name="r" type="r"/></struct>
    </protocol>"#;
    assert_eq!(ordered_names(shared), vec!["leaf", "l", "r", "top"]);
}

#[test]
fn parsed_protocol_keeps_enums_in_document_order() {
    let src = r#"<protocol name="t" version="1">
        <enum name="zeta"><entry name="z" value="1"/></enum>
        <struct name="s"><field name="k" type="alpha"/><field name="z" type="zeta"/></struct>
        <enum name="alpha"><entry name="a" value="0"/><entry name="b" value="2"/></enum>
        <request name="go" opcode="0"><arg name="s" type="s"/><arg name="a" type="alpha"/></request>
    </protocol>"#;
    let p = parse_protocol(src).unwrap();
    let enums: Vec<&str> = p.enums.iter().map(|e| e.name.as_str()).collect();
    assert_eq!(enums, vec!["zeta", "alpha"]);
    assert_eq!(p.enums[1].entries.len(), 2);
    assert_eq!(p.structs.len(), 1);
    assert_eq!(p.structs[0].fields[0].ty, ArgType::Enum("alpha".to_string()));
    assert_eq!(p.requests[0].args[0].ty, ArgType::Named("s".to_string()));
}
