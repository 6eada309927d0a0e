use miful::functions::{
    choose_function, extend_scope, find_binding, insert_function, Binding, Function,
};
use miful::parsing::ast::{MifulType, NodeKind, NodeWrapper};
use miful::parsing::text::{
    copy_texts, integer_text, is_digit, join_texts, number_text, parse_digits, repeat_text,
    split_text,
};
use miful::parsing::utils::Error;
use miful::typing::{
    args_compatible, check_obj_type, check_type, get_obj_type, get_obj_val, list_to_types,
    make_false, make_nil, make_object, make_true, obj_append,
};

fn term(s: &str) -> NodeWrapper {
    NodeWrapper::new_word(s.to_string(), 0, (0, 0))
}

fn sign(s: &str) -> NodeWrapper {
    NodeWrapper::new_symbol(s.to_string(), 0, (0, 0))
}

fn whole(i: i64) -> NodeWrapper {
    NodeWrapper::new_int(i, 0, (0, 0))
}

fn fraction(s: &str) -> NodeWrapper {
    NodeWrapper::new_float(s.to_string(), 0, (0, 0))
}

fn group(items: Vec<NodeWrapper>) -> NodeWrapper {
    NodeWrapper::new_list(items, vec![], 0, (0, 0))
}

fn quote(target: &str) -> NodeWrapper {
    NodeWrapper::new_quote(target.to_string(), vec![], vec![], 0, (0, 0))
}

fn simple(s: &str) -> MifulType {
    MifulType::Simple(s.to_string())
}

fn object(class: &str) -> MifulType {
    MifulType::Object(class.to_string())
}

fn no_source() -> Vec<String> {
    vec![]
}

#[test]
fn simple_types_name_the_kind() {
    assert!(check_type(&whole(1), &simple("int")));
    assert!(!check_type(&whole(1), &simple("float")));
    assert!(check_type(&fraction("1.5"), &simple("float")));
    assert!(check_type(&term("a"), &simple("word")));
    assert!(!check_type(&term("a"), &simple("symbol")));
    assert!(check_type(&sign("a"), &simple("symbol")));
    assert!(check_type(&group(vec![]), &simple("list")));
    assert!(check_type(&quote("f"), &simple("quote")));
    assert!(!check_type(&quote("f"), &simple("list")));
    assert!(!check_type(&whole(1), &simple("number")));
}

#[test]
fn any_is_the_type_of_everything() {
    for v in [whole(1), fraction("1.0"), term("a"), sign("b"), group(vec![]), quote("q")] {
        assert!(check_type(&v, &simple("any")));
    }
    let invoke = NodeWrapper::new_invoke("f".to_string(), vec![], vec![], 0, (0, 0));
    assert!(check_type(&invoke, &simple("any")));
    assert!(!check_type(&invoke, &simple("quote")));
    let hole = NodeWrapper::new_hook(0, vec![], 0, (0, 0));
    assert!(!check_type(&hole, &simple("word")));
}

#[test]
fn tuples_fix_length_and_types() {
    let t = MifulType::Tuple(vec![simple("word"), simple("int")]);
    assert!(check_type(&group(vec![term("a"), whole(1)]), &t));
    assert!(!check_type(&group(vec![whole(1), term("a")]), &t));
    assert!(!check_type(&group(vec![term("a")]), &t));
    assert!(!check_type(&group(vec![term("a"), whole(1), whole(2)]), &t));
    assert!(!check_type(&term("a"), &t));
    assert!(check_type(&group(vec![]), &MifulType::Tuple(vec![])));
}

#[test]
fn lists_let_each_element_choose_its_type() {
    let t = MifulType::List(vec![simple("word"), simple("int")]);
    assert!(check_type(&group(vec![]), &t));
    assert!(check_type(&group(vec![whole(1), term("a"), whole(2)]), &t));
    assert!(!check_type(&group(vec![whole(1), sign("s")]), &t));
    assert!(!check_type(&whole(1), &t));
    assert!(check_type(&group(vec![]), &MifulType::List(vec![])));
    assert!(!check_type(&group(vec![whole(1)]), &MifulType::List(vec![])));
}

#[test]
fn unions_take_any_alternative() {
    let t = MifulType::AnyOf(vec![simple("int"), simple("float")]);
    assert!(check_type(&whole(1), &t));
    assert!(check_type(&fraction("1.0"), &t));
    assert!(!check_type(&term("a"), &t));
    assert!(!check_type(&whole(1), &MifulType::AnyOf(vec![])));
}

#[test]
fn a_value_of_an_object_type_is_an_object_of_that_class() {
    let obj = make_object("point".to_string(), vec![whole(1), whole(2)], 3, (1, 4));
    assert!(check_type(&obj, &object("point")));
    assert!(check_type(&obj, &object("any")));
    assert!(!check_type(&obj, &object("string")));
    match &obj.node {
        NodeKind::List(parts) => {
            assert_eq!(parts.len(), 3);
            assert!(matches!(parts[0].node, NodeKind::Symbol(ref s) if s == "_obj"));
            assert!(matches!(parts[1].node, NodeKind::Word(ref s) if s == "point"));
            assert!(matches!(parts[2].node, NodeKind::List(ref items) if items.len() == 2));
        }
        _ => panic!("no list"),
    }
    assert_eq!((obj.index, obj.position), (3, (1, 4)));
    let by_symbol = group(vec![sign("_obj"), sign("point"), group(vec![])]);
    assert!(check_type(&by_symbol, &object("point")));
    assert!(check_obj_type(&by_symbol.node, "point"));
    assert!(!check_obj_type(&by_symbol.node, "other"));
    for not_an_object in [
        group(vec![term("_obj"), term("point"), group(vec![])]),
        group(vec![sign("obj"), term("point"), group(vec![])]),
        group(vec![sign("_obj"), whole(1), group(vec![])]),
        group(vec![sign("_obj"), term("point"), term("x")]),
        group(vec![sign("_obj"), term("point")]),
        term("point"),
    ] {
        assert!(!check_type(&not_an_object, &object("point")));
        assert!(!check_type(&not_an_object, &object("any")));
    }
}

#[test]
fn objects_give_their_class_and_contents() {
    let obj = make_object("point".to_string(), vec![whole(1), whole(2)], 0, (0, 0));
    assert_eq!(get_obj_type(&no_source(), &obj).unwrap(), "point");
    let payload = get_obj_val(&no_source(), &obj).unwrap();
    assert_eq!(payload.len(), 2);
    assert!(matches!(payload[1].node, NodeKind::Int(2)));
    let more = obj_append(&no_source(), &obj, &vec![whole(3)]).unwrap();
    assert_eq!(more.to_string(), "(_obj point (1 2 3))");
    assert_eq!(
        get_obj_val(&no_source(), &term("a")).unwrap_err().get_message(),
        "Object node is of invalid kind!"
    );
    assert_eq!(
        get_obj_type(&no_source(), &group(vec![])).unwrap_err().get_message(),
        "Object structure has invalid length!"
    );
    assert_eq!(
        get_obj_type(&no_source(), &group(vec![whole(1), whole(2), whole(3)]))
            .unwrap_err()
            .get_message(),
        "Invalid object structure!"
    );
}

#[test]
fn objects_collect_the_hooks_of_their_contents() {
    let inner = term("x");
    let hole = NodeWrapper::new_hook(0, vec![inner], 0, (0, 0));
    let obj = make_object("o".to_string(), vec![hole, whole(1)], 0, (0, 0));
    assert_eq!(obj.hooks.len(), 1);
    assert_eq!(obj.hooks[0].to_string(), "x");
}

#[test]
fn nil_true_and_false() {
    assert_eq!(make_nil().to_string(), "(_obj nil ())");
    assert!(matches!(make_true().node, NodeKind::Symbol(ref s) if s == "true"));
    assert!(matches!(make_false().node, NodeKind::Symbol(ref s) if s == "false"));
}

#[test]
fn signatures_fit_values_one_by_one() {
    let sig = vec![simple("int"), simple("word")];
    assert!(args_compatible(&sig, &vec![whole(1), term("a")]));
    assert!(!args_compatible(&sig, &vec![term("a"), whole(1)]));
    assert!(!args_compatible(&sig, &vec![whole(1)]));
    assert!(args_compatible(&vec![], &vec![]));
    assert!(!args_compatible(&vec![], &vec![whole(1)]));
}

fn types(items: Vec<NodeWrapper>) -> Vec<MifulType> {
    list_to_types(&no_source(), &items).unwrap()
}

fn types_error(items: Vec<NodeWrapper>) -> String {
    list_to_types(&no_source(), &items).unwrap_err().get_message()
}

#[test]
fn type_expressions_denote_types() {
    assert_eq!(
        types(vec![term("int"), sign("any")]),
        vec![simple("int"), simple("any")]
    );
    assert_eq!(
        types(vec![group(vec![term("tuple"), group(vec![term("int"), term("word")])])]),
        vec![MifulType::Tuple(vec![simple("int"), simple("word")])]
    );
    assert_eq!(
        types(vec![group(vec![term("list"), group(vec![term("int")])])]),
        vec![MifulType::List(vec![simple("int")])]
    );
    assert_eq!(
        types(vec![group(vec![term("obj"), term("string")])]),
        vec![object("string")]
    );
    assert_eq!(types(vec![group(vec![term("int")])]), vec![simple("int")]);
    assert_eq!(types(vec![group(vec![group(vec![term("int")])])]), vec![simple("int")]);
    assert!(types(vec![]).is_empty());
}

#[test]
fn bars_fold_their_neighbours_into_unions() {
    assert_eq!(
        types(vec![term("int"), sign("|"), term("float")]),
        vec![MifulType::AnyOf(vec![simple("int"), simple("float")])]
    );
    assert_eq!(
        types(vec![term("int"), sign("|"), term("float"), sign("|"), term("word")]),
        vec![MifulType::AnyOf(vec![simple("int"), simple("float"), simple("word")])]
    );
    assert_eq!(
        types(vec![term("list"), term("int"), term("|"), term("float")]),
        vec![
            simple("list"),
            MifulType::AnyOf(vec![simple("int"), simple("float")])
        ]
    );
    assert_eq!(
        types(vec![group(vec![term("int"), sign("|"), term("float")])]),
        vec![MifulType::AnyOf(vec![simple("int"), simple("float")])]
    );
    assert_eq!(types(vec![term("int"), sign("|")]), vec![simple("int")]);
    assert_eq!(types_error(vec![sign("|"), term("int")]), "Invalid type union syntax!");
}

#[test]
fn what_is_no_type_expression_is_rejected() {
    assert_eq!(types_error(vec![whole(1)]), "Invalid type signature!");
    assert_eq!(types_error(vec![group(vec![term("int"), term("float")])]), "Invalid type signature!");
    assert_eq!(types_error(vec![group(vec![whole(1), term("float")])]), "Invalid type signature!");
    assert_eq!(types_error(vec![group(vec![term("tuple"), term("int")])]), "Invalid type signature!");
    assert_eq!(types_error(vec![group(vec![term("obj"), whole(1)])]), "Invalid type signature!");
    assert_eq!(types_error(vec![group(vec![])]), "Invalid type signature!");
    assert_eq!(
        types_error(vec![group(vec![term("a"), term("b"), term("c")])]),
        "Invalid type signature!"
    );
    assert_eq!(
        types_error(vec![group(vec![term("list"), group(vec![whole(1)])])]),
        "..while processing compound type\n| Invalid type signature!"
    );
}

fn function(name: &str, signature: Vec<MifulType>, answer: &str) -> Function {
    Function {
        name: name.to_string(),
        signature,
        parameters: vec!["v".to_string()],
        body: term(answer),
    }
}

fn answer(table: &Vec<Function>, name: &str, args: Vec<NodeWrapper>) -> Option<String> {
    let at = term("call");
    choose_function(&no_source(), table, name, &args, &at)
        .ok()
        .map(|(_, body)| body.to_string())
}

#[test]
fn functions_with_different_signatures_coexist() {
    let mut table = vec![];
    insert_function(&mut table, function("f", vec![simple("int")], "int"));
    insert_function(&mut table, function("f", vec![simple("word")], "word"));
    insert_function(&mut table, function("g", vec![simple("int")], "other"));
    assert_eq!(table.len(), 3);
    assert_eq!(answer(&table, "f", vec![whole(1)]).unwrap(), "int");
    assert_eq!(answer(&table, "f", vec![term("a")]).unwrap(), "word");
    assert_eq!(answer(&table, "g", vec![whole(1)]).unwrap(), "other");
    assert!(answer(&table, "f", vec![fraction("1.0")]).is_none());
    assert!(answer(&table, "h", vec![whole(1)]).is_none());

    let mut other_way = vec![];
    insert_function(&mut other_way, function("f", vec![simple("word")], "word"));
    insert_function(&mut other_way, function("f", vec![simple("int")], "int"));
    assert_eq!(answer(&other_way, "f", vec![whole(1)]).unwrap(), "int");
    assert_eq!(answer(&other_way, "f", vec![term("a")]).unwrap(), "word");
}

#[test]
fn defining_a_signature_again_replaces_in_place() {
    let mut table = vec![];
    insert_function(&mut table, function("f", vec![simple("any")], "first"));
    insert_function(&mut table, function("f", vec![simple("int")], "second"));
    insert_function(&mut table, function("f", vec![simple("any")], "third"));
    assert_eq!(table.len(), 2);
    assert_eq!(table[0].body.to_string(), "third");
    assert_eq!(answer(&table, "f", vec![whole(1)]).unwrap(), "third");
}

#[test]
fn the_same_table_gives_the_same_answer() {
    let mut table = vec![];
    insert_function(&mut table, function("f", vec![simple("int")], "a"));
    insert_function(
        &mut table,
        function("f", vec![MifulType::AnyOf(vec![simple("int"), simple("word")])], "b"),
    );
    let copy: Vec<Function> = table.iter().map(|f| f.clone()).collect();
    for _ in 0..3 {
        assert_eq!(answer(&table, "f", vec![whole(1)]).unwrap(), "a");
        assert_eq!(answer(&copy, "f", vec![whole(1)]).unwrap(), "a");
        assert_eq!(answer(&copy, "f", vec![term("x")]).unwrap(), "b");
    }
    let here = term("here");
    let there = NodeWrapper::new_word("there".to_string(), 9, (3, 4));
    let a = choose_function(&no_source(), &table, "f", &vec![whole(1)], &here).unwrap();
    let b = choose_function(&vec!["x".to_string()], &table, "f", &vec![whole(1)], &there).unwrap();
    assert_eq!(a.0, b.0);
    assert_eq!(a.1.to_string(), b.1.to_string());
}

#[test]
fn a_missing_function_names_where_it_was_called() {
    let table = vec![function("f", vec![], "a")];
    let at = NodeWrapper::new_word("call".to_string(), 5, (2, 3));
    let e = choose_function(&no_source(), &table, "f", &vec![whole(1)], &at).unwrap_err();
    assert_eq!((e.get_index(), e.get_position()), (5, (2, 3)));
    assert_eq!(
        e.get_message(),
        "Did not find function ` f ` with desired parameter types.\n\t[NOTE] Following are available:\n\tf"
    );
}

#[test]
fn later_bindings_hide_earlier_ones() {
    let scope = vec![
        Binding { name: "a".to_string(), value: whole(1) },
        Binding { name: "b".to_string(), value: whole(2) },
        Binding { name: "a".to_string(), value: whole(3) },
    ];
    assert!(matches!(find_binding(&scope, "a").unwrap().node, NodeKind::Int(3)));
    assert!(matches!(find_binding(&scope, "b").unwrap().node, NodeKind::Int(2)));
    assert!(find_binding(&scope, "c").is_none());
    let names = vec!["b".to_string(), "c".to_string(), "d".to_string()];
    let inner = extend_scope(&scope, &names, &vec![whole(7), whole(8)]);
    assert_eq!(inner.len(), 5);
    assert!(matches!(find_binding(&inner, "b").unwrap().node, NodeKind::Int(7)));
    assert!(matches!(find_binding(&inner, "c").unwrap().node, NodeKind::Int(8)));
    assert!(find_binding(&inner, "d").is_none());
    assert!(matches!(find_binding(&scope, "b").unwrap().node, NodeKind::Int(2)));
    assert_eq!(scope.len(), 3);
}

#[test]
fn numbers_are_written_in_decimal() {
    assert_eq!(number_text(0), "0");
    assert_eq!(number_text(7), "7");
    assert_eq!(number_text(10), "10");
    assert_eq!(number_text(1234567890), "1234567890");
    assert_eq!(integer_text(0), "0");
    assert_eq!(integer_text(-1), "-1");
    assert_eq!(integer_text(42), "42");
    assert_eq!(integer_text(i64::MAX), "9223372036854775807");
    assert_eq!(integer_text(i64::MIN), "-9223372036854775808");
}

#[test]
fn digits_are_read_in_decimal() {
    assert_eq!(parse_digits("0"), Some(0));
    assert_eq!(parse_digits("0042"), Some(42));
    assert_eq!(parse_digits(""), Some(0));
    assert_eq!(parse_digits("9223372036854775807"), Some(i64::MAX));
    assert_eq!(parse_digits("9223372036854775808"), None);
    assert_eq!(parse_digits("99999999999999999999999"), None);
    assert!(is_digit("0") && is_digit("9"));
    assert!(!is_digit("a") && !is_digit("") && !is_digit("12"));
}

#[test]
fn texts_are_split_joined_and_repeated() {
    assert_eq!(split_text("a\nb", '\n'), vec!["a", "b"]);
    assert_eq!(split_text("", '\n'), vec![""]);
    assert_eq!(split_text("a\n", '\n'), vec!["a", ""]);
    assert_eq!(split_text("\n\n", '\n'), vec!["", "", ""]);
    let parts = vec!["a".to_string(), "b".to_string(), "c".to_string()];
    assert_eq!(join_texts(&parts, ", "), "a, b, c");
    assert_eq!(join_texts(&vec![], ", "), "");
    assert_eq!(join_texts(&vec!["x".to_string()], ", "), "x");
    assert_eq!(copy_texts(&parts), parts);
    assert_eq!(repeat_text("ab", 3), "ababab");
    assert_eq!(repeat_text("ab", 0), "");
}
