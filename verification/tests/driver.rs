use miful::driver::{line_nodes, Driver, Outcome};
use miful::host::{FloatOp, Reply, Request};
use miful::parsing::ast::{NodeKind, NodeWrapper};
use miful::parsing::utils::{Error, MifulError};

struct Run {
    results: Vec<Result<NodeWrapper, MifulError>>,
    output: String,
}

fn float_text(x: f64) -> String {
    let mut text = x.to_string();
    if x.is_finite() && !text.contains('.') {
        text.push_str(".0");
    }
    text
}

fn perform(request: Request, output: &mut String, lines: &mut Vec<String>) -> Reply {
    match request {
        Request::Print(text) => {
            output.push_str(&text);
            Reply::Done
        }
        Request::ReadLine => Reply::Line(if lines.is_empty() {
            String::new()
        } else {
            lines.remove(0)
        }),
        Request::Float { op, left, right } => {
            let a: f64 = left.parse().unwrap();
            let b: f64 = right.parse().unwrap();
            match op {
                FloatOp::Add => Reply::Float(float_text(a + b)),
                FloatOp::Sub => Reply::Float(float_text(a - b)),
                FloatOp::Mul => Reply::Float(float_text(a * b)),
                FloatOp::Eq => Reply::Truth(a == b),
            }
        }
    }
}

fn run_with(source: &str, input: &[&str]) -> Run {
    let mut lines: Vec<String> = input.iter().map(|s| s.to_string()).collect();
    let mut output = String::new();
    let mut results = vec![];
    let mut driver = Driver::new(source);
    driver.process().unwrap();
    loop {
        match driver.next() {
            None => break,
            Some(Outcome::Done(v)) => results.push(Ok(v)),
            Some(Outcome::Failure(e)) => results.push(Err(e)),
            Some(Outcome::Ask(request)) => {
                let reply = perform(request, &mut output, &mut lines);
                driver.answer(reply);
            }
        }
    }
    Run { results, output }
}

fn run(source: &str) -> Run {
    run_with(source, &[])
}

fn last(source: &str) -> NodeWrapper {
    run(source).results.pop().unwrap().unwrap()
}

fn failure(source: &str) -> MifulError {
    run(source).results.pop().unwrap().unwrap_err()
}

fn text(source: &str) -> String {
    last(source).to_string()
}

fn float_of(node: &NodeWrapper) -> f64 {
    match &node.node {
        NodeKind::Float(t) => t.parse().unwrap(),
        _ => panic!("not a float"),
    }
}

const NIL: &str = "(_obj nil ())";

#[test]
fn adds_integers() {
    let v = last("[+ 2 3]");
    assert!(matches!(v.node, NodeKind::Int(5)));
}

#[test]
fn adds_floats_through_the_host() {
    let v = last("[+ 1.5 2.25]");
    assert_eq!(float_of(&v), 3.75);
    assert_eq!(float_of(&last("[- 1.5 2.25]")), -0.75);
    assert_eq!(float_of(&last("[* 1.5 2.0]")), 3.0);
    assert_eq!(text("[* 1.5 2.0]"), "3.0");
    assert_eq!(text("[mk-sym [+ 1.5 0.5]]"), "2.0");
    assert_eq!(float_of(&last("[+ [* 2.0 2.0] [- 1.0 0.5]]")), 4.5);
}

#[test]
fn if_takes_one_branch() {
    assert!(matches!(
        last("[if [= 1 1] {return 10} {return 20}]").node,
        NodeKind::Int(10)
    ));
    assert!(matches!(
        last("[if [= 1 2] {return 10} {return 20}]").node,
        NodeKind::Int(20)
    ));
    assert!(matches!(
        last("[if maybe {return 10} {return 20}]").node,
        NodeKind::Int(20)
    ));
    let r = run("[if [= 1 1] {print yes} {print no}]");
    assert_eq!(r.output, "yes");
}

#[test]
fn defines_and_calls_a_function() {
    let r = run("[define sq ((n int)) {* [:n] [:n]}] [sq 7]");
    assert_eq!(r.results.len(), 2);
    assert_eq!(r.results[0].as_ref().unwrap().to_string(), NIL);
    assert!(matches!(r.results[1].as_ref().unwrap().node, NodeKind::Int(49)));
}

#[test]
fn length_of_a_list() {
    assert!(matches!(last("[length (1 2 3 4)]").node, NodeKind::Int(4)));
    assert!(matches!(last("[length ()]").node, NodeKind::Int(0)));
}

#[test]
fn head_of_tail() {
    let v = last("[head [tail (a b c)]]");
    assert!(matches!(v.node, NodeKind::Word(ref s) if s == "b"));
    assert_eq!(text("[tail (a b c)]"), "(b c)");
    assert_eq!(text("[reverse (a b c)]"), "(c b a)");
    assert_eq!(text("[reverse ()]"), "()");
}

#[test]
fn prints_a_string_object() {
    let r = run("[print (`_obj` string (Hi))]");
    assert_eq!(r.output, "Hi");
    assert_eq!(r.results[0].as_ref().unwrap().to_string(), NIL);
    let r = run("[print (`_obj` string (Hello , [:space] world [:newline]))]");
    assert_eq!(r.output, "Hello, world\n");
    assert_eq!(run("[print word]").output, "word");
    assert_eq!(run("[print (`_obj` string ((`_obj` string (a b)) c))]").output, "abc");
}

#[test]
fn atoms_lists_and_quotes_evaluate_to_themselves() {
    assert_eq!(text("a"), "a");
    assert_eq!(text("`s`"), "s");
    assert_eq!(text("12"), "12");
    assert_eq!(text("1.50"), "1.50");
    assert_eq!(text("(a [+ 1 2] (b))"), "(a 3 (b))");
    assert_eq!(text("{f a (b)}"), "{f\n   a\n   (b)\n}");
}

#[test]
fn quotes_resolve_their_holes() {
    let v = last("{f {? (x y) ?} (a {? 3 ?})}");
    assert!(v.hooks.is_empty());
    assert_eq!(v.to_string(), "{f\n   (x y)\n   (a 3)\n}");
}

#[test]
fn every_quote_resolves_its_own_holes() {
    let r = run("{f {? a ?}} {g {? b ?}} {h x {? (c d) ?}}");
    let texts: Vec<String> = r.results.iter().map(|v| v.as_ref().unwrap().to_string()).collect();
    assert_eq!(
        texts,
        vec!["{f\n   a\n}", "{g\n   b\n}", "{h\n   x\n   (c d)\n}"]
    );
    assert_eq!(
        text("[if [= 1 1] {return {? a ?}} {return {? b ?}}]"),
        "a"
    );
    assert_eq!(
        text("[if [= 1 2] {return {? a ?}} {return ({? b ?} {? c ?})}]"),
        "(b c)"
    );
    assert_eq!(text("({f {? a ?}} {g {? b ?}})"), "({f\n      a\n   } {g\n      b\n   })");
}

#[test]
fn a_quote_in_a_quote_keeps_its_holes_until_it_is_evaluated() {
    let outer = last("{f {? a ?} {g {? b ?}} {? c ?}}");
    assert_eq!(outer.to_string(), "{f\n   a\n   {g\n      {? b ?}\n   }\n   c\n}");
    let program = "
        [define g ((v any)) {return [:v]}]
        [define f ((v any) (q quote) (w any)) {return [:q]}]
        [if [= 1 1] {f {? a ?} {g {? b ?}} {? c ?}} {return no}]
    ";
    assert_eq!(text(program), "{g\n   b\n}");
}

#[test]
fn a_hole_outside_its_quote_is_unresolved() {
    let e = failure("{? a ?}");
    assert!(matches!(e, MifulError::Runtime(_)));
    assert_eq!(e.get_message(), "Unresolved hook!");
    let r = run("({? a ?}) {f {? b ?}}");
    assert_eq!(
        r.results[0].as_ref().unwrap_err().get_message(),
        "..while evaluating list elements\n| Unresolved hook!"
    );
    assert_eq!(r.results[1].as_ref().unwrap().to_string(), "{f\n   b\n}");
}

#[test]
fn integer_arithmetic() {
    assert_eq!(text("[- 2 5]"), "-3");
    assert_eq!(text("[* 6 7]"), "42");
    assert_eq!(text("[+ [* 2 3] [- 10 4]]"), "12");
    assert_eq!(text("[+ 9223372036854775806 1]"), "9223372036854775807");
    let e = failure("[+ 9223372036854775807 1]");
    assert_eq!(e.get_message(), "Integer overflow!");
    assert_eq!(failure("[* 9223372036854775807 2]").get_message(), "Integer overflow!");
    assert_eq!(
        failure("[- [- 0 9223372036854775807] 2]").get_message(),
        "Integer overflow!"
    );
}

#[test]
fn plus_joins_lists_and_objects() {
    assert_eq!(text("[+ (a b) (c)]"), "(a b c)");
    assert_eq!(
        text("[+ (`_obj` string (a)) (`_obj` string (b c))]"),
        "(_obj string (a b c))"
    );
    assert_eq!(
        failure("[+ (`_obj` string (a)) (`_obj` other (b))]").get_message(),
        "Can't concat two different objects!"
    );
    assert_eq!(
        failure("[+ 1 a]").get_message(),
        "Invalid parameter type, expecting ` (int | float | (obj any) | list) `!"
    );
    assert_eq!(
        failure("[- 1 a]").get_message(),
        "Invalid parameter type, expecting ` (int | float) `!"
    );
    assert_eq!(
        failure("[* (a) (b)]").get_message(),
        "Invalid parameter type, expecting ` (int | float) `!"
    );
}

#[test]
fn equality_is_structural() {
    assert_eq!(text("[= 1 1]"), "true");
    assert_eq!(text("[= 1 2]"), "false");
    assert_eq!(text("[= a a]"), "true");
    assert_eq!(text("[= a b]"), "false");
    assert_eq!(text("[= a `a`]"), "false");
    assert_eq!(text("[= 1 a]"), "false");
    assert_eq!(text("[= (1 (a b)) (1 (a b))]"), "true");
    assert_eq!(text("[= (1 (a b)) (1 (a c))]"), "false");
    assert_eq!(text("[= (1 2) (1 2 3)]"), "false");
    assert_eq!(text("[= 1.0 1.00]"), "true");
    assert_eq!(text("[= 1.0 1.5]"), "false");
    assert_eq!(text("[= (1.5 2) (1.50 2)]"), "true");
    assert_eq!(
        failure("[= {a} {a}]").get_message(),
        "Can't check equality of quote!"
    );
    assert_eq!(
        failure("[= (1 {a}) (1 {a})]").get_message(),
        "..while checking list equality\n| Can't check equality of quote!"
    );
}

#[test]
fn symbols_are_made_from_words_and_numbers() {
    assert!(matches!(last("[mk-sym abc]").node, NodeKind::Symbol(ref s) if s == "abc"));
    assert!(matches!(last("[mk-sym 12]").node, NodeKind::Symbol(ref s) if s == "12"));
    assert!(matches!(last("[mk-sym [- 0 12]]").node, NodeKind::Symbol(ref s) if s == "-12"));
    assert!(matches!(last("[mk-sym 1.5]").node, NodeKind::Symbol(ref s) if s == "1.5"));
    assert_eq!(
        failure("[mk-sym (a)]").get_message(),
        "Invalid parameter type, expecting ` word `!"
    );
}

#[test]
fn constants_come_from_the_scope() {
    assert!(matches!(last("[: space]").node, NodeKind::Symbol(ref s) if s == " "));
    assert!(matches!(last("[:newline]").node, NodeKind::Symbol(ref s) if s == "\n"));
    assert!(matches!(last("[:tab]").node, NodeKind::Symbol(ref s) if s == "\t"));
    assert!(matches!(last("[:carriage_ret]").node, NodeKind::Symbol(ref s) if s == "\r"));
    assert_eq!(text("([:l_bracket] [:r_bracket] [:l_brace] [:r_brace] [:l_paren] [:r_paren])"), "([ ] { } ( ))");
    assert_eq!(failure("[: nothing]").get_message(), "Undefined constant!");
    assert_eq!(
        failure("[: 1]").get_message(),
        "Invalid parameter type, expecting ` (word | symbol) `!"
    );
}

#[test]
fn return_gives_its_argument() {
    assert_eq!(text("[return (a 1)]"), "(a 1)");
}

#[test]
fn objects_are_appended_to() {
    assert_eq!(
        text("[obj-append (`_obj` string (a)) (b c)]"),
        "(_obj string (a b c))"
    );
    assert_eq!(
        failure("[obj-append (`_obj` string (a)) b]").get_message(),
        "Invalid parameter type, expecting ` list `!"
    );
    assert_eq!(
        failure("[obj-append (a b c) (d)]").get_message(),
        "..while processing object name\n| Invalid object structure!"
    );
    assert_eq!(
        failure("[obj-append (a b) (d)]").get_message(),
        "..while processing object name\n| Object structure has invalid length!"
    );
    assert_eq!(
        failure("[obj-append a (d)]").get_message(),
        "..while processing object name\n| Object node is of invalid kind!"
    );
}

#[test]
fn wrong_argument_counts_are_reported() {
    assert_eq!(failure("[print a b]").get_message(), "Expected 1 parameters; got 2!");
    assert_eq!(failure("[head]").get_message(), "Expected 1 parameters; got 0!");
    assert_eq!(failure("[if a {b}]").get_message(), "Expected 3 parameters; got 2!");
    assert_eq!(failure("[define f ()]").get_message(), "Expected 3 parameters; got 2!");
    assert_eq!(failure("[obj-append a]").get_message(), "Expected 2 parameters; got 1!");
    assert_eq!(failure("[+ 1]").get_message(), "Expected 2 parameters; got 1!");
    assert_eq!(failure("[- 1 2 3]").get_message(), "Expected 2 parameters; got 3!");
    assert_eq!(failure("[*]").get_message(), "Expected 2 parameters; got 0!");
    assert_eq!(failure("[= 1 2 3]").get_message(), "Expected 2 parameters; got 3!");
}

#[test]
fn list_operations_reject_what_is_no_list() {
    assert_eq!(
        failure("[length a]").get_message(),
        "Invalid parameter type, expecting ` (list (any)) `!"
    );
    assert_eq!(failure("[head ()]").get_message(), "Cannot get head of empty tuple!");
    assert_eq!(failure("[tail ()]").get_message(), "Cannot get tail of empty tuple!");
    assert_eq!(
        failure("[reverse 1]").get_message(),
        "Invalid parameter type, expecting ` (list (any)) `!"
    );
}

#[test]
fn printing_rejects_what_is_no_text() {
    assert_eq!(
        failure("[print 1]").get_message(),
        "Invalid parameter type, expecting ` (obj string) `!"
    );
    assert_eq!(
        failure("[print (`_obj` string (a 1))]").get_message(),
        "..while evaluating invoke parameters\n| Invalid parameter type, expecting ` (obj string) `!"
    );
}

#[test]
fn if_needs_two_quotes() {
    assert_eq!(
        failure("[if true a {b}]").get_message(),
        "Invalid parameter type, expecting ` quote `!"
    );
    let e = failure("[if true {a} b]");
    assert_eq!(e.get_message(), "Invalid parameter type, expecting ` quote `!");
    assert_eq!((e.get_index(), e.get_position()), (13, (1, 14)));
    let e = failure("[if true a {b}]");
    assert_eq!((e.get_index(), e.get_position()), (9, (1, 10)));
    assert_eq!(
        failure("[if [= 1 1] {head ()} {b}]").get_message(),
        "..while evaluating parameters\n| Cannot get head of empty tuple!"
    );
}

#[test]
fn errors_in_arguments_gain_a_layer() {
    let e = failure("[+ 1 [head ()]]");
    assert_eq!(
        e.get_message(),
        "..while evaluating invoke parameters\n| Cannot get head of empty tuple!"
    );
    assert!(matches!(e, MifulError::Runtime(_)));
    assert_eq!(
        failure("(a [head ()])").get_message(),
        "..while evaluating list elements\n| Cannot get head of empty tuple!"
    );
    assert!(!e.get_source().is_empty());
}

#[test]
fn define_checks_its_arguments() {
    assert_eq!(
        failure("[define 1 () {a}]").get_message(),
        "Invalid parameter type, expecting ` (word | symbol) `!"
    );
    assert_eq!(
        failure("[define f a {a}]").get_message(),
        "Invalid parameter type, expecting ` (list *(list (word type))) `!"
    );
    assert_eq!(
        failure("[define f () a]").get_message(),
        "Invalid parameter type, expecting ` quote `!"
    );
    assert_eq!(
        failure("[define print () {a}]").get_message(),
        "Cannot override built-in function!"
    );
    assert_eq!(
        failure("[define if () {a}]").get_message(),
        "Cannot override built-in function!"
    );
    assert_eq!(failure("[define f (a) {a}]").get_message(), "Invalid type signature!");
    assert_eq!(failure("[define f ((a)) {a}]").get_message(), "Invalid type signature!");
    assert_eq!(failure("[define f ((1 int)) {a}]").get_message(), "Invalid type signature!");
    assert_eq!(
        failure("[define f ((a 1)) {a}]").get_message(),
        "..while defining function\n| Invalid type signature!"
    );
    assert_eq!(
        failure("[define f ((a (tuple b))) {a}]").get_message(),
        "..while defining function\n| Invalid type signature!"
    );
    assert_eq!(
        failure("[define f ((a (tuple (1)))) {a}]").get_message(),
        "..while defining function\n| ..while processing compound type\n| | Invalid type signature!"
    );
    assert_eq!(
        failure("[define f ((a (| int float))) {a}]").get_message(),
        "..while defining function\n| Invalid type union syntax!"
    );
    assert_eq!(
        failure("[define f ((a |)) {a}]").get_message(),
        "..while defining function\n| Invalid type union syntax!"
    );
}

#[test]
fn overloads_are_chosen_by_type() {
    let program = "
        [define show ((v int)) {return number}]
        [define show ((v word)) {return text}]
        [define show ((v (list (int)))) {return numbers}]
        [define show ((v (tuple (word int)))) {return pair}]
        [define show ((v (obj string))) {return string}]
        [define show ((v (float | symbol))) {return other}]
        [define show ((a any) (b any)) {return two}]
        ([show 1] [show a] [show (1 2 3)] [show (a 1)] [show (`_obj` string ())]
         [show 1.5] [show `s`] [show 1 2] [show ()])
    ";
    assert_eq!(
        text(program),
        "(number text numbers pair string other other two numbers)"
    );
}

#[test]
fn a_later_definition_with_the_same_signature_takes_over() {
    let program = "
        [define f ((v int)) {return old}]
        [define f ((v word)) {return word}]
        [define f ((v int)) {return new}]
        ([f 1] [f a])
    ";
    assert_eq!(text(program), "(new word)");
}

#[test]
fn the_first_matching_overload_answers() {
    let program = "
        [define f ((v any)) {return first}]
        [define f ((v int)) {return second}]
        [f 1]
    ";
    assert_eq!(text(program), "first");
}

#[test]
fn the_same_call_selects_the_same_overload_every_time() {
    let program = "
        [define f ((v int)) {return a}]
        [define f ((v (int | word))) {return b}]
        ([f 1] [f 1] [f x] [f 1] [f x])
    ";
    assert_eq!(text(program), "(a a b a b)");
}

#[test]
fn a_call_that_nothing_answers_lists_the_overloads() {
    let program = "
        [define f ((v int)) {return a}]
        [define f ((v word) (w (obj string))) {return b}]
        [define f () {return c}]
        [define g ((v int)) {return d}]
        [f 1.5]
    ";
    let e = failure(program);
    assert_eq!(
        e.get_message(),
        "Did not find function ` f ` with desired parameter types.\n\t[NOTE] Following are available:\n\tf :: int\n\tf :: word, (obj string)\n\tf"
    );
    assert_eq!(
        failure("[nothing 1]").get_message(),
        "Did not find function ` nothing ` with desired parameter types.\n\t[NOTE] Following are available:\n\t"
    );
}

#[test]
fn errors_in_a_call_name_the_function() {
    let program = "
        [define first ((l list)) {head [:l]}]
        [first ()]
    ";
    assert_eq!(
        failure(program).get_message(),
        "..while calling function first\n| Cannot get head of empty tuple!"
    );
}

#[test]
fn parameters_do_not_leak_into_the_caller() {
    let program = "
        [define id ((secret int)) {return [:secret]}]
        [id 5]
        [: secret]
        [: space]
    ";
    let r = run(program);
    assert!(matches!(r.results[1].as_ref().unwrap().node, NodeKind::Int(5)));
    assert_eq!(
        r.results[2].as_ref().unwrap_err().get_message(),
        "Undefined constant!"
    );
    assert!(matches!(
        r.results[3].as_ref().unwrap().node,
        NodeKind::Symbol(ref s) if s == " "
    ));
}

#[test]
fn parameters_hide_outer_names_inside_the_call_only() {
    let program = "
        [define f ((space int)) {return [:space]}]
        ([f 1] [:space])
    ";
    assert_eq!(text(program), "(1  )");
}

#[test]
fn definitions_inside_arguments_stay_there() {
    let program = "
        ([define local () {return 1}] [local])
        [local]
    ";
    let r = run(program);
    assert_eq!(r.results[0].as_ref().unwrap().to_string(), "((_obj nil ()) 1)");
    assert!(r.results[1].is_err());
}

#[test]
fn recursion_works() {
    let program = "
        [define factorial ((n int))
            {if [= [:n] 0]
                {return 1}
                {* [:n] [factorial [- [:n] 1]]}
            }
        ]
        [factorial 12]
    ";
    assert!(matches!(last(program).node, NodeKind::Int(479001600)));
}

#[test]
fn endless_recursion_is_stopped() {
    let program = "
        [define loop ((n int)) {loop [+ [:n] 1]}]
        [loop 0]
    ";
    let mut driver = Driver::new(program);
    driver.limit_depth(3);
    driver.process().unwrap();
    assert!(matches!(driver.next(), Some(Outcome::Done(_))));
    match driver.next() {
        Some(Outcome::Failure(e)) => assert_eq!(
            e.get_message(),
            "..while calling function loop\n| ..while calling function loop\n| | ..while calling function loop\n| | | Recursion limit reached!"
        ),
        _ => panic!("no failure"),
    }
}

#[test]
fn input_reads_a_line_as_a_string_object() {
    let r = run_with("[input (`_obj` string (name: [:space]))]", &["Ann Lee\n"]);
    assert_eq!(r.output, "name: ");
    let v = r.results[0].as_ref().unwrap();
    assert_eq!(v.to_string(), "(_obj string (Ann   Lee))");
    match &v.node {
        NodeKind::List(parts) => match &parts[2].node {
            NodeKind::List(items) => {
                assert_eq!(items.len(), 3);
                assert!(matches!(items[0].node, NodeKind::Symbol(ref s) if s == "Ann"));
                assert!(matches!(items[1].node, NodeKind::Symbol(ref s) if s == " "));
                assert!(matches!(items[2].node, NodeKind::Symbol(ref s) if s == "Lee"));
            }
            _ => panic!("no payload"),
        },
        _ => panic!("no object"),
    }
}

#[test]
fn output_and_input_interleave_in_order() {
    let program = "
        [print a]
        ([print b] [input c] [print d] [input e])
        [print f]
    ";
    let r = run_with(program, &["one\n", "two\n"]);
    assert_eq!(r.output, "abcdef");
    assert_eq!(r.results.len(), 3);
    assert_eq!(
        r.results[1].as_ref().unwrap().to_string(),
        "((_obj nil ()) (_obj string (one)) (_obj nil ()) (_obj string (two)))"
    );
}

#[test]
fn lines_become_symbols() {
    let nodes = line_nodes("a [b] 1\n").unwrap();
    let texts: Vec<String> = nodes.iter().map(|n| n.to_string()).collect();
    assert_eq!(texts, vec!["a", " ", "[", "b", "]", " ", "1"]);
    assert!(nodes.iter().all(|n| matches!(n.node, NodeKind::Symbol(_))));
    assert!(line_nodes("").unwrap().is_empty());
    assert!(line_nodes("\n").unwrap().is_empty());
}

#[test]
fn a_reply_of_the_wrong_kind_is_an_error() {
    let mut driver = Driver::new("[print a]");
    driver.process().unwrap();
    assert!(matches!(driver.next(), Some(Outcome::Ask(Request::Print(ref t))) if t == "a"));
    driver.answer(Reply::Truth(true));
    match driver.next() {
        Some(Outcome::Failure(e)) => {
            assert_eq!(e.get_message(), "Unexpected reply from the host!")
        }
        _ => panic!("no failure"),
    }
    assert!(driver.next().is_none());
}

#[test]
fn a_step_without_its_reply_asks_again() {
    let mut driver = Driver::new("[+ 1.0 2.0] 7");
    driver.process().unwrap();
    for _ in 0..3 {
        match driver.next() {
            Some(Outcome::Ask(Request::Float { op, left, right })) => {
                assert_eq!(op, FloatOp::Add);
                assert_eq!((left.as_str(), right.as_str()), ("1.0", "2.0"));
            }
            _ => panic!("no request"),
        }
    }
    driver.answer(Reply::Float("3".to_string()));
    assert!(matches!(
        driver.next(),
        Some(Outcome::Done(NodeWrapper { node: NodeKind::Float(ref t), .. })) if t == "3"
    ));
    assert!(matches!(
        driver.next(),
        Some(Outcome::Done(NodeWrapper { node: NodeKind::Int(7), .. }))
    ));
    assert!(driver.next().is_none());
}

#[test]
fn process_reports_what_lexer_and_parser_find() {
    let mut driver = Driver::new("(a [f )");
    let e = driver.process().unwrap_err();
    assert!(matches!(e, MifulError::Semantics(_)));
    assert_eq!(
        e.get_message(),
        "..while interpreting the source\n| ..while parsing list\n| | ..while parsing invoke\n| | | Unexpected control token: `)`!"
    );
    assert_eq!(e.get_source().len(), 7);
    assert!(driver.next().is_none());

    let mut driver = Driver::new("99999999999999999999");
    let e = driver.process().unwrap_err();
    assert!(matches!(e, MifulError::Parsing(_)));
    assert_eq!(e.get_message(), "Invalid literal!");

    let mut driver = Driver::new("a (b)");
    let nodes = driver.process().unwrap();
    assert_eq!(nodes.len(), 2);
}

#[test]
fn the_sample_program_runs() {
    let program = "
    [define drop ((n int) (lst list))
        {if [= [:n] 0]
            {:lst}
            {drop [- [:n] 1] [tail [:lst]]}
        }
    ]

    [define elem ((n int) (lst list)) {head [drop [:n] [:lst]]}]
    [define obj-unwrap ((o (obj any))) {elem 2 [:o]}]

    [define string ((seq (list (word symbol)))) {return (`_obj` string [:seq])}]
    [define string ((num (int | float))) {return (`_obj` string ([mk-sym [:num]]))}]

    [define println ((val word)) {print [string ([:val] [:newline])]}]
    [define println ((val symbol)) {print [string ([:val] [:newline])]}]
    [define println ((val (obj string))) {print [obj-append [:val] ([:newline])]}]

    [define factorial ((n int))
        {if [= [:n] 0]
            {return 1}
            {* [:n] [factorial [- [:n] 1]]}
        }
    ]

    [println
        [obj-append
            [string (Hello: [:space])]

            ([input
                [string
                    (Enter [:space] your [:space] name: [:space])
                ]
            ])
        ]
    ]

    [println
        [string
            [length
                [obj-unwrap
                    [input
                        [string ([:l_bracket] input [:r_bracket] [:space])]
                    ]
                ]
            ]
        ]
    ]

    [println [string [factorial 12]]]
    ";
    let r = run_with(program, &["Ann\n", "a b\n"]);
    for result in &r.results {
        assert!(result.is_ok());
    }
    assert_eq!(r.results.len(), 12);
    assert_eq!(
        r.output,
        "Enter your name: Hello: Ann\n[input] 3\n479001600\n"
    );
}
