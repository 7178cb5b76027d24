use filter_expr::{Scanner, Token};

struct Output {
    error: bool,
    print: &'static str,
}

struct TestScenario {
    text: &'static str,
    expects: Vec<Output>,
}

#[test]
fn test_new_scanner() {
    let s = Scanner::new("test");
    let data_bytes = &s.buffer()[0..4];
    let data = std::str::from_utf8(data_bytes).unwrap();

    assert!(
        data == "test",
        "Expected the scanner reader data to be \"test\", got {data}"
    )
}

#[test]
fn test_scanner_scan() {
    let test_scenarios = vec![
            // whitespace
            TestScenario {
                text: r"   ",
                expects: vec![Output {
                    error: false,
                    print: r"{whitespace    }",
                }],
            },
            TestScenario {
                text: r"test 123",
                expects: vec![
                    Output {
                        error: false,
                        print: r"{identifier test}",
                    },
                    Output {
                        error: false,
                        print: r"{whitespace  }",
                    },
                    Output {
                        error: false,
                        print: r"{number 123}",
                    },
                ],
            },
            // identifier
            TestScenario {
                text: r"test",
                expects: vec![Output {
                    error: false,
                    print: r"{identifier test}",
                }],
            },
            TestScenario {
                text: r"@test.123",
                expects: vec![Output {
                    error: false,
                    print: r"{identifier @test.123}",
                }],
            },
            TestScenario {
                text: r"_test.123",
                expects: vec![Output {
                    error: false,
                    print: r"{identifier _test.123}",
                }],
            },
            TestScenario {
                text: r"#test.123:456",
                expects: vec![Output {
                    error: false,
                    print: r"{identifier #test.123:456}",
                }],
            },
            TestScenario {
                text: r".test.123",
                expects: vec![
                    Output {
                        error: true,
                        print: r"{unexpected .}",
                    },
                    Output {
                        error: false,
                        print: r"{identifier test.123}",
                    },
                ],
            },
            TestScenario {
                text: r":test.123",
                expects: vec![
                    Output {
                        error: true,
                        print: r"{unexpected :}",
                    },
                    Output {
                        error: false,
                        print: r"{identifier test.123}",
                    },
                ],
            },
            TestScenario {
                text: r"test#@",
                expects: vec![Output {
                    error: true,
                    print: r"{identifier test#@}",
                }],
            },
            TestScenario {
                text: r"test'",
                expects: vec![
                    Output {
                        error: false,
                        print: r"{identifier test}",
                    },
                    Output {
                        error: true,
                        print: r"{text '}",
                    },
                ],
            },
            TestScenario {
                text: r#"test"d"#,
                expects: vec![
                    Output {
                        error: false,
                        print: r"{identifier test}",
                    },
                    Output {
                        error: true,
                        print: r#"{text \"d}"#,
                    },
                ],
            },
            // number
            TestScenario {
                text: r"123",
                expects: vec![Output {
                    error: false,
                    print: r"{number 123}",
                }],
            },
            TestScenario {
                text: r"-123",
                expects: vec![Output {
                    error: false,
                    print: r"{number -123}",
                }],
            },
            TestScenario {
                text: r"-123.456",
                expects: vec![Output {
                    error: false,
                    print: r"{number -123.456}",
                }],
            },
            TestScenario {
                text: r"123.456",
                expects: vec![Output {
                    error: false,
                    print: r"{number 123.456}",
                }],
            },
            TestScenario {
                text: r".123",
                expects: vec![
                    Output {
                        error: true,
                        print: r"{unexpected .}",
                    },
                    Output {
                        error: false,
                        print: r"{number 123}",
                    },
                ],
            },
            TestScenario {
                text: r"- 123",
                expects: vec![
                    Output {
                        error: true,
                        print: r"{number -}",
                    },
                    Output {
                        error: false,
                        print: r"{whitespace  }",
                    },
                    Output {
                        error: false,
                        print: r"{number 123}",
                    },
                ],
            },
            TestScenario {
                text: r"12-3",
                expects: vec![
                    Output {
                        error: false,
                        print: r"{number 12}",
                    },
                    Output {
                        error: false,
                        print: r"{number -3}",
                    },
                ],
            },
            TestScenario {
                text: r"123.abc",
                expects: vec![
                    Output {
                        error: true,
                        print: r"{number 123.}",
                    },
                    Output {
                        error: false,
                        print: r"{identifier abc}",
                    },
                ],
            },
            // text
            TestScenario {
                text: r#""""#,
                expects: vec![Output {
                    error: false,
                    print: r"{text }",
                }],
            },
            TestScenario {
                text: r"''",
                expects: vec![Output {
                    error: false,
                    print: r"{text }",
                }],
            },
            TestScenario {
                text: r"'test'",
                expects: vec![Output {
                    error: false,
                    print: r"{text test}",
                }],
            },
            TestScenario {
                text: r"'te\'st'",
                expects: vec![Output {
                    error: false,
                    print: r"{text te'st}",
                }],
            },
            TestScenario {
                text: r#""te\"st""#,
                expects: vec![Output {
                    error: false,
                    print: r#"{text te"st}"#,
                }],
            },
            TestScenario {
                text: r#""tes@#,;!@#%^'\"t""#,
                expects: vec![Output {
                    error: false,
                    print: r#"{text tes@#,;!@#%^'"t}"#,
                }],
            },
            TestScenario {
                text: r#"'tes@#,;!@#%^\'"t'"#,
                expects: vec![Output {
                    error: false,
                    print: r#"{text tes@#,;!@#%^'"t}"#,
                }],
            },
            TestScenario {
                text: r#""test"#,
                expects: vec![Output {
                    error: true,
                    print: r#"{text "test}"#,
                }],
            },
            TestScenario {
                text: r"'test",
                expects: vec![Output {
                    error: true,
                    print: r"{text 'test}",
                }],
            },
            // join types
            TestScenario {
                text: r"&&||",
                expects: vec![Output {
                    error: true,
                    print: r"{join &&||}",
                }],
            },
            TestScenario {
                text: r"&& ||",
                expects: vec![
                    Output {
                        error: false,
                        print: r"{join &&}",
                    },
                    Output {
                        error: false,
                        print: r"{whitespace  }",
                    },
                    Output {
                        error: false,
                        print: r"{join ||}",
                    },
                ],
            },
            TestScenario {
                text: r"'||test&&'&&123",
                expects: vec![
                    Output {
                        error: false,
                        print: r"{text ||test&&}",
                    },
                    Output {
                        error: false,
                        print: r"{join &&}",
                    },
                    Output {
                        error: false,
                        print: r"{number 123}",
                    },
                ],
            },
            // expression signs
            TestScenario {
                text: r"=!=",
                expects: vec![Output {
                    error: true,
                    print: r"{sign =!=}",
                }],
            },
            TestScenario {
                text: r"= != ~ !~ > >= < <= ?= ?!= ?~ ?!~ ?> ?>= ?< ?<=",
                expects: vec![
                    Output {
                        error: false,
                        print: r"{sign =}",
                    },
                    Output {
                        error: false,
                        print: r"{whitespace  }",
                    },
                    Output {
                        error: false,
                        print: r"{sign !=}",
                    },
                    Output {
                        error: false,
                        print: r"{whitespace  }",
                    },
                    Output {
                        error: false,
                        print: r"{sign ~}",
                    },
                    Output {
                        error: false,
                        print: r"{whitespace  }",
                    },
                    Output {
                        error: false,
                        print: r"{sign !~}",
                    },
                    Output {
                        error: false,
                        print: r"{whitespace  }",
                    },
                    Output {
                        error: false,
                        print: r"{sign >}",
                    },
                    Output {
                        error: false,
                        print: r"{whitespace  }",
                    },
                    Output {
                        error: false,
                        print: r"{sign >=}",
                    },
                    Output {
                        error: false,
                        print: r"{whitespace  }",
                    },
                    Output {
                        error: false,
                        print: r"{sign <}",
                    },
                    Output {
                        error: false,
                        print: r"{whitespace  }",
                    },
                    Output {
                        error: false,
                        print: r"{sign <=}",
                    },
                    Output {
                        error: false,
                        print: r"{whitespace  }",
                    },
                    Output {
                        error: false,
                        print: r"{sign ?=}",
                    },
                    Output {
                        error: false,
                        print: r"{whitespace  }",
                    },
                    Output {
                        error: false,
                        print: r"{sign ?!=}",
                    },
                    Output {
                        error: false,
                        print: r"{whitespace  }",
                    },
                    Output {
                        error: false,
                        print: r"{sign ?~}",
                    },
                    Output {
                        error: false,
                        print: r"{whitespace  }",
                    },
                    Output {
                        error: false,
                        print: r"{sign ?!~}",
                    },
                    Output {
                        error: false,
                        print: r"{whitespace  }",
                    },
                    Output {
                        error: false,
                        print: r"{sign ?>}",
                    },
                    Output {
                        error: false,
                        print: r"{whitespace  }",
                    },
                    Output {
                        error: false,
                        print: r"{sign ?>=}",
                    },
                    Output {
                        error: false,
                        print: r"{whitespace  }",
                    },
                    Output {
                        error: false,
                        print: r"{sign ?<}",
                    },
                    Output {
                        error: false,
                        print: r"{whitespace  }",
                    },
                    Output {
                        error: false,
                        print: r"{sign ?<=}",
                    },
                ],
            },
            // groups/parenthesis
            TestScenario {
                text: r"a)",
                expects: vec![
                    Output {
                        error: false,
                        print: r"{identifier a}",
                    },
                    Output {
                        error: true,
                        print: r"{unexpected )}",
                    },
                ],
            },
            TestScenario {
                text: r"(a b c",
                expects: vec![Output {
                    error: true,
                    print: r"{group a b c}",
                }],
            },
            TestScenario {
                text: r"(a b c)",
                expects: vec![Output {
                    error: false,
                    print: r"{group a b c}",
                }],
            },
            TestScenario {
                text: r"((a b c))",
                expects: vec![Output {
                    error: false,
                    print: r"{group (a b c)}",
                }],
            },
            TestScenario {
                text: r"((a )b c))",
                expects: vec![
                    Output {
                        error: false,
                        print: r"{group (a )b c}",
                    },
                    Output {
                        error: true,
                        print: r"{unexpected )}",
                    },
                ],
            },
            TestScenario {
                text: r#"("ab)("c)"#,
                expects: vec![Output {
                    error: false,
                    print: r#"{group "ab)("c}"#,
                }],
            },
            TestScenario {
                text: r#"("ab)(c)"#,
                expects: vec![Output {
                    error: true,
                    print: r#"{group "ab)(c)}"#,
                }],
            },
            // comments
            TestScenario {
                text: r"/ test",
                expects: vec![
                    Output {
                        error: true,
                        print: r"{comment }",
                    },
                    Output {
                        error: false,
                        print: r"{identifier test}",
                    },
                ],
            },
            TestScenario {
                text: r"/ / test",
                expects: vec![
                    Output {
                        error: true,
                        print: r"{comment }",
                    },
                    Output {
                        error: true,
                        print: r"{comment }",
                    },
                    Output {
                        error: false,
                        print: r"{identifier test}",
                    },
                ],
            },
            TestScenario {
                text: r"//",
                expects: vec![Output {
                    error: false,
                    print: r"{comment }",
                }],
            },
            TestScenario {
                text: r"//test",
                expects: vec![Output {
                    error: false,
                    print: r"{comment test}",
                }],
            },
            TestScenario {
                text: r"// test",
                expects: vec![Output {
                    error: false,
                    print: r"{comment test}",
                }],
            },
            TestScenario {
                text: r"//   test1 //test2  ",
                expects: vec![Output {
                    error: false,
                    print: r"{comment test1 //test2}",
                }],
            },
            TestScenario {
                text: r"///test",
                expects: vec![Output {
                    error: false,
                    print: r"{comment /test}",
                }],
            },
        ];

    for (i, scenario) in test_scenarios.iter().enumerate() {
        let mut s = Scanner::new(scenario.text);

        for (j, expect) in scenario.expects.iter().enumerate() {
            let token = match s.scan() {
                Ok(token) => {
                    assert!(
                        !expect.error,
                        "({}.{}) Expected error, got ok ({})",
                        i,
                        j,
                        token.to_string()
                    );
                    token
                }
                Err(err) => {
                    assert!(
                        expect.error,
                        "({}.{}) Did not expect error, got {:?} ({})",
                        i, j, err, scenario.text
                    );
                    continue;
                }
            };

            let token_print = token.to_string();

            assert!(
                token_print == expect.print,
                "({}.{}) Expected token {}, got {}",
                i,
                j,
                expect.print,
                token_print
            );
        }

        let last_token = s.scan().unwrap();
        assert!(
            matches!(last_token, Token::Eof(_)),
            "({}) Expected EOF token, got {}",
            i,
            last_token.to_string()
        );
    }
}
