use filter_expr::{parse, Expr, SignOp, Token};

struct ZeroScenario {
    expr: Expr,
    result: bool,
}

struct Scenario {
    input: &'static str,
    expected_error: bool,
    expected_print: &'static str,
}

#[test]
fn test_expr_is_zero() {
    let scenarios = vec![
        ZeroScenario {
            expr: Expr::default(),
            result: true,
        },
        ZeroScenario {
            expr: Expr {
                op: SignOp::AnyEq,
                ..Default::default()
            },
            result: false,
        },
        ZeroScenario {
            expr: Expr {
                left: Token::Number("123".to_owned()),
                ..Default::default()
            },
            result: false,
        },
        ZeroScenario {
            expr: Expr {
                left: Token::Ws("".to_owned()),
                ..Default::default()
            },
            result: false,
        },
        ZeroScenario {
            expr: Expr {
                right: Token::Number("123".to_owned()),
                ..Default::default()
            },
            result: false,
        },
        ZeroScenario {
            expr: Expr {
                right: Token::Ws("".to_owned()),
                ..Default::default()
            },
            result: false,
        },
    ];

    for (i, s) in scenarios.iter().enumerate() {
        let v = s.expr.is_zero();
        assert!(
            v == s.result,
            "({}) Expected {}, got {} for \n{}",
            i,
            s.result,
            v,
            s.expr.to_string()
        )
    }
}

#[test]
fn test_parse() {
    let scenarios = vec![
            Scenario {
                input: r"> 1",
                expected_error: true,
                expected_print: r"[]",
            },
            Scenario {
                input: r"a >",
                expected_error: true,
                expected_print: r"[]",
            },
            Scenario {
                input: r"a > >",
                expected_error: true,
                expected_print: r"[]",
            },
            Scenario {
                input: r"a > %",
                expected_error: true,
                expected_print: r"[]",
            },
            Scenario {
                input: r"a ! 1",
                expected_error: true,
                expected_print: r"[]",
            },
            Scenario {
                input: r"a - 1",
                expected_error: true,
                expected_print: r"[]",
            },
            Scenario {
                input: r"a + 1",
                expected_error: true,
                expected_print: r"[]",
            },
            Scenario {
                input: r"1 - 1",
                expected_error: true,
                expected_print: r"[]",
            },
            Scenario {
                input: r"1 + 1",
                expected_error: true,
                expected_print: r"[]",
            },
            Scenario {
                input: r"> a 1",
                expected_error: true,
                expected_print: r"[]",
            },
            Scenario {
                input: r"a || 1",
                expected_error: true,
                expected_print: r"[]",
            },
            Scenario {
                input: r"a && 1",
                expected_error: true,
                expected_print: r"[]",
            },
            Scenario {
                input: r"test > 1 &&",
                expected_error: true,
                expected_print: r"[]",
            },
            Scenario {
                input: r"|| test = 1",
                expected_error: true,
                expected_print: r"[]",
            },
            Scenario {
                input: r"test = 1 && ||",
                expected_error: true,
                expected_print: r"[]",
            },
            Scenario {
                input: r"test = 1 && a",
                expected_error: true,
                expected_print: r"[]",
            },
            Scenario {
                input: r#"test = 1 && "a""#,
                expected_error: true,
                expected_print: r"[]",
            },
            Scenario {
                input: r"test = 1 a",
                expected_error: true,
                expected_print: r"[]",
            },
            Scenario {
                input: r#"test = 1 "a""#,
                expected_error: true,
                expected_print: r"[]",
            },
            Scenario {
                input: r"test = 1@test",
                expected_error: true,
                expected_print: r"[]",
            },
            Scenario {
                input: r"test = .@test",
                expected_error: true,
                expected_print: r"[]",
            },
            // mismatched text quotes
            Scenario {
                input: r#"test = "demo'"#,
                expected_error: true,
                expected_print: r"[]",
            },
            Scenario {
                input: r#"test = 'demo""#,
                expected_error: true,
                expected_print: r"[]",
            },
            Scenario {
                input: r#"test = 'demo'""#,
                expected_error: true,
                expected_print: r"[]",
            },
            Scenario {
                input: r"test = 'demo''",
                expected_error: true,
                expected_print: r"[]",
            },
            Scenario {
                input: r#"test = "demo"'"#,
                expected_error: true,
                expected_print: r"[]",
            },
            Scenario {
                input: r#"test = "demo"""#,
                expected_error: true,
                expected_print: r"[]",
            },
            Scenario {
                input: r#"test = ""demo""#,
                expected_error: true,
                expected_print: r"[]",
            },
            Scenario {
                input: r"test = ''demo''",
                expected_error: true,
                expected_print: r"[]",
            },
            Scenario {
                input: r"test = `demo`",
                expected_error: true,
                expected_print: r"[]",
            },
            // comments
            Scenario {
                input: r"test = / demo",
                expected_error: true,
                expected_print: r"[]",
            },
            Scenario {
                input: r"test = // demo",
                expected_error: true,
                expected_print: r"[]",
            },
            Scenario {
                input: r"// demo",
                expected_error: true,
                expected_print: r"[]",
            },
            Scenario {
                input: r"test = 123 // demo",
                expected_error: false,
                expected_print: r"[{&& {{identifier test} = {number 123}}}]",
            },
            Scenario {
                input: "test = // demo\n123",
                expected_error: false,
                expected_print: r"[{&& {{identifier test} = {number 123}}}]",
            },
            Scenario {
                input: r"
                    a = 123 &&
                    // demo
                    b = 456
                ",
                expected_error: false,
                expected_print: r"[{&& {{identifier a} = {number 123}}} {&& {{identifier b} = {number 456}}}]",
            },
            // valid simple expression and sign operators check
            Scenario {
                input: r"1=12",
                expected_error: false,
                expected_print: r"[{&& {{number 1} = {number 12}}}]",
            },
            Scenario {
                input: r"   1    =    12    ",
                expected_error: false,
                expected_print: r"[{&& {{number 1} = {number 12}}}]",
            },
            Scenario {
                input: r#""demo" != test"#,
                expected_error: false,
                expected_print: r"[{&& {{text demo} != {identifier test}}}]",
            },
            Scenario {
                input: r"a~1",
                expected_error: false,
                expected_print: r"[{&& {{identifier a} ~ {number 1}}}]",
            },
            Scenario {
                input: r"a !~ 1",
                expected_error: false,
                expected_print: r"[{&& {{identifier a} !~ {number 1}}}]",
            },
            Scenario {
                input: r"test>12",
                expected_error: false,
                expected_print: r"[{&& {{identifier test} > {number 12}}}]",
            },
            Scenario {
                input: r"test > 12",
                expected_error: false,
                expected_print: r"[{&& {{identifier test} > {number 12}}}]",
            },
            Scenario {
                input: r#"test >="test""#,
                expected_error: false,
                expected_print: r"[{&& {{identifier test} >= {text test}}}]",
            },
            Scenario {
                input: r"test<@demo.test2",
                expected_error: false,
                expected_print: r"[{&& {{identifier test} < {identifier @demo.test2}}}]",
            },
            Scenario {
                input: r#"1<="test""#,
                expected_error: false,
                expected_print: r"[{&& {{number 1} <= {text test}}}]",
            },
            Scenario {
                input: r#"1<="te'st""#,
                expected_error: false,
                expected_print: r"[{&& {{number 1} <= {text te'st}}}]",
            },
            Scenario {
                input: r#"demo='te\'st'"#,
                expected_error: false,
                expected_print: r"[{&& {{identifier demo} = {text te'st}}}]",
            },
            Scenario {
                input: r#"demo="te\'st""#,
                expected_error: false,
                expected_print: r"[{&& {{identifier demo} = {text te\'st}}}]",
            },
            Scenario {
                input: r#"demo="te\"st""#,
                expected_error: false,
                expected_print: r#"[{&& {{identifier demo} = {text te"st}}}]"#,
            },
            // invalid parenthesis
            Scenario {
                input: r"(a=1",
                expected_error: true,
                expected_print: r"[]",
            },
            Scenario {
                input: r"a=1)",
                expected_error: true,
                expected_print: r"[]",
            },
            Scenario {
                input: r"((a=1)",
                expected_error: true,
                expected_print: r"[]",
            },
            Scenario {
                input: r"{a=1}",
                expected_error: true,
                expected_print: r"[]",
            },
            Scenario {
                input: r"[a=1]",
                expected_error: true,
                expected_print: r"[]",
            },
            Scenario {
                input: r"((a=1 || a=2) && c=1))",
                expected_error: true,
                expected_print: r"[]",
            },
            // valid parenthesis
            Scenario {
                input: r"()",
                expected_error: true,
                expected_print: r"[]",
            },
            Scenario {
                input: r"(a=1)",
                expected_error: false,
                expected_print: r"[{&& [{&& {{identifier a} = {number 1}}}]}]",
            },
            Scenario {
                input: r#"(a="test(")"#,
                expected_error: false,
                expected_print: r"[{&& [{&& {{identifier a} = {text test(}}}]}]",
            },
            Scenario {
                input: r#"(a="test)")"#,
                expected_error: false,
                expected_print: r"[{&& [{&& {{identifier a} = {text test)}}}]}]",
            },
            Scenario {
                input: r"((a=1))",
                expected_error: false,
                expected_print: r"[{&& [{&& [{&& {{identifier a} = {number 1}}}]}]}]",
            },
            Scenario {
                input: r"a=1 || 2!=3",
                expected_error: false,
                expected_print: r"[{&& {{identifier a} = {number 1}}} {|| {{number 2} != {number 3}}}]",
            },
            Scenario {
                input: r"a=1 && 2!=3",
                expected_error: false,
                expected_print: r"[{&& {{identifier a} = {number 1}}} {&& {{number 2} != {number 3}}}]",
            },
            Scenario {
                input: r#"a=1 && 2!=3 || "b"=a"#,
                expected_error: false,
                expected_print: r"[{&& {{identifier a} = {number 1}}} {&& {{number 2} != {number 3}}} {|| {{text b} = {identifier a}}}]",
            },
            Scenario {
                input: r#"(a=1 && 2!=3) || "b"=a"#,
                expected_error: false,
                expected_print: r"[{&& [{&& {{identifier a} = {number 1}}} {&& {{number 2} != {number 3}}}]} {|| {{text b} = {identifier a}}}]",
            },
            Scenario {
                input: r"((a=1 || a=2) && (c=1))",
                expected_error: false,
                expected_print: r"[{&& [{&& [{&& {{identifier a} = {number 1}}} {|| {{identifier a} = {number 2}}}]} {&& [{&& {{identifier c} = {number 1}}}]}]}]",
            },
            Scenario {
                input: r#"(a='"')"#,
                expected_error: false,
                expected_print: r#"[{&& [{&& {{identifier a} = {text "}}}]}]"#,
            },
            Scenario {
                input: r"(a='\'')",
                expected_error: false,
                expected_print: r"[{&& [{&& {{identifier a} = {text '}}}]}]",
            },
            Scenario {
                input: r#"(a="'")"#,
                expected_error: false,
                expected_print: r"[{&& [{&& {{identifier a} = {text '}}}]}]",
            },
            Scenario {
                input: r#"(a="\"")"#,
                expected_error: false,
                expected_print: r#"[{&& [{&& {{identifier a} = {text "}}}]}]"#,
            },
        ];

    for (i, scenario) in scenarios.iter().enumerate() {
        let v = match parse(scenario.input) {
            Ok(v) => {
                assert!(
                    !scenario.expected_error,
                    "({}) Expected error, got ok ({})",
                    i,
                    v.to_string()
                );
                v
            }
            Err(err) => {
                assert!(
                    scenario.expected_error,
                    "({}) Did not expect error, got {:?} ({}).",
                    i, err, scenario.input
                );
                continue;
            }
        };

        let v_print = v.to_string();

        assert!(
            v_print == scenario.expected_print,
            "({}) Expected {}, got {}",
            i,
            scenario.expected_print,
            v_print
        )
    }
}
