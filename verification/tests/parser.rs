use std::borrow::Cow;

use minimessage::parse_error::ParseError;
use minimessage::parser::{Expression, Node, Parser};
use minimessage::tokenizer::Tokenizer;

fn nodes_fallible(input: &str) -> Result<Vec<Node<'_>>, ParseError> {
    let mut parser = Parser::new(Tokenizer::new(input));
    let mut nodes = Vec::new();
    while let Some(node) = parser.next() {
        nodes.push(node?);
    }
    Ok(nodes)
}

fn nodes(input: &str) -> Vec<Node<'_>> {
    nodes_fallible(input).unwrap()
}

#[test]
fn short_text() {
    assert_eq!(
        nodes("Hello world"),
        vec![Node::Text(Cow::Borrowed("Hello world"))]
    );
}

#[test]
fn simple_element() {
    assert_eq!(
        nodes("<p>Hello</p>"),
        vec![Node::Element {
            tag: "p",
            tag_descriptors: vec![],
            children: vec![Node::Text(Cow::Borrowed("Hello"))],
        }],
    );
}

#[test]
fn element_simplified_style() {
    assert_eq!(
        nodes("<blue>Hello <yellow>I'm yellow and <red>red"),
        vec![Node::Element {
            tag: "blue",
            tag_descriptors: vec![],
            children: vec![
                Node::Text(Cow::Borrowed("Hello "),),
                Node::Element {
                    tag: "yellow",
                    tag_descriptors: vec![],
                    children: vec![
                        Node::Text(Cow::Borrowed("I'm yellow and ")),
                        Node::Element {
                            tag: "red",
                            tag_descriptors: Vec::new(),
                            children: vec![Node::Text(Cow::Borrowed("red"))]
                        }
                    ]
                }
            ],
        }],
    );
}

#[test]
fn nested_elements() {
    assert_eq!(
        nodes("<div><p>Hello <b>bold</b> world</p><span>hi</span></div>"),
        vec![Node::Element {
            tag: "div",
            tag_descriptors: vec![],
            children: vec![
                Node::Element {
                    tag: "p",
                    tag_descriptors: vec![],
                    children: vec![
                        Node::Text(Cow::Borrowed("Hello ")),
                        Node::Element {
                            tag: "b",
                            tag_descriptors: vec![],
                            children: vec![Node::Text(Cow::Borrowed("bold"))],
                        },
                        Node::Text(Cow::Borrowed(" world")),
                    ],
                },
                Node::Element {
                    tag: "span",
                    tag_descriptors: vec![],
                    children: vec![Node::Text(Cow::Borrowed("hi"))],
                },
            ],
        }],
    );
}

#[test]
fn expression_only() {
    assert_eq!(
        nodes("{name}"),
        vec![Node::Expression(Expression::Named(Cow::Borrowed("name")))],
    );
}

#[test]
fn escaped_char() {
    assert_eq!(
        nodes(r"escaped \{ brace"),
        vec![Node::Text(Cow::Owned("escaped { brace".to_string()))],
    );
}

#[test]
fn complex_message() {
    let nodes = nodes(
        r"Hello <blue>{name}, welcome to <orange>Rust</orange>!</blue> with an escaped \{",
    );

    let expected = vec![
        Node::Text(Cow::Borrowed("Hello ")),
        Node::Element {
            tag: "blue",
            tag_descriptors: vec![],
            children: vec![
                Node::Expression(Expression::Named(Cow::Borrowed("name"))),
                Node::Text(Cow::Borrowed(", welcome to ")),
                Node::Element {
                    tag: "orange",
                    tag_descriptors: vec![],
                    children: vec![Node::Text(Cow::Borrowed("Rust"))],
                },
                Node::Text(Cow::Borrowed("!")),
            ],
        },
        Node::Text(Cow::Owned(" with an escaped {".to_string())),
    ];

    assert_eq!(nodes, expected);
}

#[test]
fn long_plain_text() {
    let input = "hello world ".repeat(100);
    let expected = input.clone();
    let nodes = nodes(&input);
    assert_eq!(nodes, vec![Node::Text(Cow::Owned(expected))]);
}

#[test]
fn simple_element_with_one_descriptor() {
    assert_eq!(
        nodes("<p:testingiscool>Hello</p>"),
        vec![Node::Element {
            tag: "p",
            tag_descriptors: vec![Cow::Borrowed("testingiscool")],
            children: vec![Node::Text(Cow::Borrowed("Hello"))],
        }],
    );
}

#[test]
fn simple_element_with_one_descriptor_int() {
    assert_eq!(
        nodes("<p:1>Hello</p>"),
        vec![Node::Element {
            tag: "p",
            tag_descriptors: vec![Cow::Borrowed("1")],
            children: vec![Node::Text(Cow::Borrowed("Hello"))],
        }],
    );
}

#[test]
fn simple_element_with_multiple_descriptors() {
    assert_eq!(
        nodes(
            r#"<p:testingiscool:"now with a string":an_ident:"and another string">Hello</p>"#
        ),
        vec![Node::Element {
            tag: "p",
            tag_descriptors: vec![
                Cow::Borrowed("testingiscool"),
                Cow::Borrowed("now with a string"),
                Cow::Borrowed("an_ident"),
                Cow::Borrowed("and another string")
            ],
            children: vec![Node::Text(Cow::Borrowed("Hello"))],
        }],
    );
}

#[test]
fn simple_element_with_descriptor_colon() {
    assert_eq!(
        nodes(r#"<p:"string with : a colon">Hello</p>"#),
        vec![Node::Element {
            tag: "p",
            tag_descriptors: vec![Cow::Owned(r#"string with : a colon"#.to_owned())],
            children: vec![Node::Text(Cow::Borrowed("Hello"))],
        }],
    );
}

#[test]
fn simple_element_with_descriptor_escaped_colon() {
    assert_eq!(
        nodes(r#"<p:"string with \: a colon">Hello</p>"#),
        vec![Node::Element {
            tag: "p",
            tag_descriptors: vec![Cow::Owned(r#"string with : a colon"#.to_owned())],
            children: vec![Node::Text(Cow::Borrowed("Hello"))],
        }],
    );
}

#[test]
fn complex_descriptor_double_quote() {
    assert_eq!(
        nodes(r#"Funny link: <click:open_url:"https://pumpkinmc.org/"></click>"#),
        vec![
            Node::Text("Funny link: ".into()),
            Node::Element {
                tag: "click",
                tag_descriptors: vec![
                    Cow::Borrowed("open_url"),
                    Cow::Borrowed("https://pumpkinmc.org/")
                ],
                children: vec![]
            }
        ]
    )
}

#[test]
fn complex_descriptor_quote() {
    assert_eq!(
        nodes(r#"Funny link: <click:open_url:'https://pumpkinmc.org/'></click>"#),
        vec![
            Node::Text("Funny link: ".into()),
            Node::Element {
                tag: "click",
                tag_descriptors: vec![
                    Cow::Borrowed("open_url"),
                    Cow::Borrowed("https://pumpkinmc.org/")
                ],
                children: vec![]
            }
        ]
    )
}

#[test]
fn descriptor_nested_quote_double_outer() {
    assert_eq!(
        nodes(r#"<p:"hello 'world'">Test</p>"#),
        vec![Node::Element {
            tag: "p",
            tag_descriptors: vec![Cow::Borrowed("hello 'world'")],
            children: vec![Node::Text(Cow::Borrowed("Test"))],
        }],
    );
}

#[test]
fn descriptor_nested_quote_single_outer() {
    assert_eq!(
        nodes(r#"<p:'hello "world"'>Test</p>"#),
        vec![Node::Element {
            tag: "p",
            tag_descriptors: vec![Cow::Borrowed(r#"hello "world""#)],
            children: vec![Node::Text(Cow::Borrowed("Test"))],
        }],
    );
}

#[test]
fn quotes_in_regular_text() {
    assert_eq!(
        nodes("It's a \"nice\" day"),
        vec![Node::Text(Cow::Owned("It's a \"nice\" day".to_owned()))]
    );
}

#[test]
fn test_complex_message() {
    assert_eq!(
        nodes(
            "<blue>Hello there, <red><bold>{}</bold></red>!</blue> <yellow>Here's your shiny bold number: <bold>{number:.2}</bold></yellow>"
        ),
        vec![
            Node::Element {
                tag: "blue",
                tag_descriptors: vec![],
                children: vec![
                    Node::Text(Cow::Borrowed("Hello there, ")),
                    Node::Element {
                        tag: "red",
                        tag_descriptors: vec![],
                        children: vec![Node::Element {
                            tag: "bold",
                            tag_descriptors: vec![],
                            children: vec![Node::Expression(Expression::Unnamed)]
                        }]
                    },
                    Node::Text("!".into())
                ],
            },
            Node::Text(" ".into()),
            Node::Element {
                tag: "yellow",
                tag_descriptors: vec![],
                children: vec![
                    Node::Text("Here's your shiny bold number: ".into()),
                    Node::Element {
                        tag: "bold",
                        tag_descriptors: vec![],
                        children: vec![Node::Expression(Expression::Named(Cow::Owned(
                            "number:.2".to_owned()
                        )))]
                    }
                ]
            }
        ]
    );
}

#[test]
fn newline_tag() {
    assert_eq!(nodes("<newline>"), vec![Node::Text(Cow::Borrowed("\n"))]);
}

#[test]
fn br_tag() {
    assert_eq!(nodes("<br>"), vec![Node::Text(Cow::Borrowed("\n"))]);
}

#[test]
fn newline_between_text() {
    assert_eq!(
        nodes("Hello<newline>World"),
        vec![
            Node::Text(Cow::Borrowed("Hello")),
            Node::Text(Cow::Borrowed("\n")),
            Node::Text(Cow::Borrowed("World")),
        ]
    );
}

#[test]
fn escaped_newline() {
    assert_eq!(
        nodes(r"Hello\nWorld"),
        vec![Node::Text(Cow::Owned("Hello\nWorld".to_owned()))]
    );
}

#[test]
fn escaped_newline_at_start() {
    assert_eq!(
        nodes(r"\nHello"),
        vec![Node::Text(Cow::Owned("\nHello".to_owned()))]
    );
}

#[test]
fn escaped_newline_with_trailing() {
    assert_eq!(
        nodes(r"Hello\nWorld\nFoo"),
        vec![Node::Text(Cow::Owned("Hello\nWorld\nFoo".to_owned()))]
    );
}

#[test]
fn multiple_newlines() {
    assert_eq!(
        nodes("A<br>B<br>C<newline>D"),
        vec![
            Node::Text(Cow::Borrowed("A")),
            Node::Text(Cow::Borrowed("\n")),
            Node::Text(Cow::Borrowed("B")),
            Node::Text(Cow::Borrowed("\n")),
            Node::Text(Cow::Borrowed("C")),
            Node::Text(Cow::Borrowed("\n")),
            Node::Text(Cow::Borrowed("D")),
        ]
    );
}

#[test]
fn newline_in_element() {
    assert_eq!(
        nodes("<red>Hello<br>World</red>"),
        vec![Node::Element {
            tag: "red",
            tag_descriptors: vec![],
            children: vec![
                Node::Text(Cow::Borrowed("Hello")),
                Node::Text(Cow::Borrowed("\n")),
                Node::Text(Cow::Borrowed("World")),
            ],
        }]
    );
}
