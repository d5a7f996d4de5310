use scalar_expr::parse::sys::{
    parse_decimal, parse_sys, Pair, ProcessIdError, Rule, SourceSpan, Symbol, SysOp,
};

fn node(rule: Rule, text: &str, start: usize, inner: Vec<Pair>) -> Pair {
    Pair { rule, text: text.to_string(), span: SourceSpan(start, text.len()), inner }
}

fn leaf(text: &str, start: usize) -> Pair {
    node(Rule::Other, text, start, vec![])
}

fn symbol(name: &str, start: usize) -> Symbol {
    Symbol { name: name.to_string(), span: SourceSpan(start, name.len()) }
}

fn clause(kind: Rule, script: &str, start: usize) -> Pair {
    node(
        Rule::Other,
        script,
        start,
        vec![node(kind, "on", start, vec![]), leaf(script, start + 3)],
    )
}

#[test]
fn reads_decimal_numbers() {
    assert_eq!(parse_decimal(&"0".to_string()), Some(0));
    assert_eq!(parse_decimal(&"7".to_string()), Some(7));
    assert_eq!(parse_decimal(&"+7".to_string()), Some(7));
    assert_eq!(parse_decimal(&"0042".to_string()), Some(42));
    assert_eq!(parse_decimal(&"1234567890".to_string()), Some(1234567890));
    assert_eq!(parse_decimal(&"18446744073709551615".to_string()), Some(u64::MAX));
}

#[test]
fn rejects_what_is_no_decimal_number() {
    for bad in [
        "",
        "+",
        "-1",
        "++1",
        "1+",
        " 1",
        "1 ",
        "1_000",
        "12a",
        "0x10",
        "1.0",
        "٣",
        "18446744073709551616",
        "99999999999999999999999",
    ] {
        assert_eq!(parse_decimal(&bad.to_string()), None, "{:?}", bad);
    }
}

#[test]
fn decimal_reader_agrees_with_the_standard_library() {
    for text in ["0", "+0", "17", "+17", "", "+", "-0", "a", "1a", "18446744073709551615",
        "18446744073709551616", "184467440737095516150", "000000000000000000000001", "٣"]
    {
        assert_eq!(
            parse_decimal(&text.to_string()),
            u64::from_str_radix(text, 10).ok(),
            "{:?}",
            text
        );
    }
}

#[test]
fn reads_commands_without_arguments() {
    assert_eq!(parse_sys(vec![node(Rule::CompactOp, "::compact", 0, vec![])]), Ok(SysOp::Compact));
    assert_eq!(
        parse_sys(vec![node(Rule::RunningOp, "::running", 0, vec![])]),
        Ok(SysOp::ListRunning)
    );
    assert_eq!(
        parse_sys(vec![node(Rule::ListRelationsOp, "::relations", 0, vec![])]),
        Ok(SysOp::ListRelations)
    );
}

#[test]
fn reads_only_the_first_node() {
    let first = node(Rule::CompactOp, "::compact", 0, vec![]);
    let second = node(Rule::RunningOp, "::running", 10, vec![]);
    assert_eq!(parse_sys(vec![first, second]), Ok(SysOp::Compact));
}

#[test]
fn reads_kill_with_a_process_number() {
    let cmd = node(Rule::KillOp, "::kill 42", 0, vec![leaf("42", 7)]);
    assert_eq!(parse_sys(vec![cmd]), Ok(SysOp::KillRunning(42)));
}

#[test]
fn kill_with_a_bad_process_number_fails() {
    let cmd = node(Rule::KillOp, "::kill 4x2", 0, vec![leaf("4x2", 7)]);
    assert_eq!(parse_sys(vec![cmd]), Err(ProcessIdError("4x2".to_string(), SourceSpan(7, 3))));
    let big = "18446744073709551616";
    let cmd = node(Rule::KillOp, "::kill", 0, vec![leaf(big, 7)]);
    assert_eq!(parse_sys(vec![cmd]), Err(ProcessIdError(big.to_string(), SourceSpan(7, 20))));
}

#[test]
fn reads_relation_commands() {
    let list = node(Rule::ListRelationOp, "::columns people", 0, vec![leaf("people", 10)]);
    assert_eq!(parse_sys(vec![list]), Ok(SysOp::ListRelation(symbol("people", 10))));
    let show = node(Rule::TriggerRelationShowOp, "::show people", 0, vec![leaf("people", 7)]);
    assert_eq!(parse_sys(vec![show]), Ok(SysOp::ShowTrigger(symbol("people", 7))));
}

#[test]
fn reads_remove_with_any_number_of_relations() {
    let none = node(Rule::RemoveRelationsOp, "::remove", 0, vec![]);
    assert_eq!(parse_sys(vec![none]), Ok(SysOp::RemoveRelation(vec![])));
    let three = node(
        Rule::RemoveRelationsOp,
        "::remove a, bb, c",
        0,
        vec![leaf("a", 9), leaf("bb", 12), leaf("c", 16)],
    );
    assert_eq!(
        parse_sys(vec![three]),
        Ok(SysOp::RemoveRelation(vec![symbol("a", 9), symbol("bb", 12), symbol("c", 16)]))
    );
}

#[test]
fn reads_rename_pairs_in_order() {
    let pair = |old: &str, new: &str, at: usize| {
        node(
            Rule::Other,
            "pair",
            at,
            vec![leaf(old, at), leaf(new, at + 10), leaf("ignored", at + 20)],
        )
    };
    let cmd = node(
        Rule::RenameRelationsOp,
        "::rename",
        0,
        vec![pair("a", "b", 9), pair("c", "d", 40)],
    );
    assert_eq!(
        parse_sys(vec![cmd]),
        Ok(SysOp::RenameRelation(vec![
            (symbol("a", 9), symbol("b", 19)),
            (symbol("c", 40), symbol("d", 50)),
        ]))
    );
}

#[test]
fn reads_triggers_by_kind() {
    let cmd = node(
        Rule::TriggerRelationOp,
        "::set_triggers people",
        0,
        vec![
            leaf("people", 15),
            clause(Rule::TriggerPut, "put one", 30),
            clause(Rule::TriggerRm, "rm one", 50),
            clause(Rule::TriggerReplace, "replace one", 70),
            clause(Rule::TriggerPut, "put two", 90),
            clause(Rule::TriggerReplace, "replace two", 110),
        ],
    );
    assert_eq!(
        parse_sys(vec![cmd]),
        Ok(SysOp::SetTriggers(
            symbol("people", 15),
            vec!["put one".to_string(), "put two".to_string()],
            vec!["rm one".to_string()],
            vec!["replace one".to_string(), "replace two".to_string()],
        ))
    );
}

#[test]
fn reads_triggers_without_clauses() {
    let cmd = node(Rule::TriggerRelationOp, "::set_triggers people", 0, vec![leaf("people", 15)]);
    assert_eq!(
        parse_sys(vec![cmd]),
        Ok(SysOp::SetTriggers(symbol("people", 15), vec![], vec![], vec![]))
    );
}

#[test]
fn tells_commands_from_other_trees() {
    assert!(node(Rule::CompactOp, "", 0, vec![]).is_sys_command());
    assert!(node(Rule::RemoveRelationsOp, "", 0, vec![]).is_sys_command());
    assert!(!node(Rule::Other, "", 0, vec![]).is_sys_command());
    assert!(!node(Rule::TriggerPut, "", 0, vec![]).is_sys_command());
    assert!(!node(Rule::KillOp, "", 0, vec![]).is_sys_command());
    assert!(node(Rule::KillOp, "", 0, vec![leaf("x", 0)]).is_sys_command());
    assert!(!node(Rule::ListRelationOp, "", 0, vec![]).is_sys_command());
    assert!(!node(Rule::TriggerRelationShowOp, "", 0, vec![]).is_sys_command());
    assert!(!node(Rule::RenameRelationsOp, "", 0, vec![leaf("a", 0)]).is_sys_command());
    assert!(node(Rule::RenameRelationsOp, "", 0, vec![]).is_sys_command());
    assert!(!node(Rule::TriggerRelationOp, "", 0, vec![]).is_sys_command());
    let bad_kind = node(Rule::Other, "", 0, vec![leaf("x", 0), leaf("y", 0)]);
    assert!(!node(Rule::TriggerRelationOp, "", 0, vec![leaf("r", 0), bad_kind]).is_sys_command());
    let short = node(Rule::Other, "", 0, vec![node(Rule::TriggerPut, "", 0, vec![])]);
    assert!(!node(Rule::TriggerRelationOp, "", 0, vec![leaf("r", 0), short]).is_sys_command());
    let good = clause(Rule::TriggerRm, "s", 0);
    assert!(node(Rule::TriggerRelationOp, "", 0, vec![leaf("r", 0), good]).is_sys_command());
}

#[test]
fn a_node_becomes_the_symbol_that_it_writes() {
    assert_eq!(leaf("people", 4).into_symbol(), symbol("people", 4));
}
