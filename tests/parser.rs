use pratt::{
    BinaryExpression, Expression, Identifier, Number, Operator, Parser, Program, Token,
    UnaryExpression,
};

fn num(number: u64) -> Box<Expression> {
    Box::new(Number { number }.into())
}

fn ident(name: &str) -> Box<Expression> {
    Box::new(Identifier { identifier: name.into() }.into())
}

fn binary(left: Box<Expression>, operator: Operator, right: Box<Expression>) -> Box<Expression> {
    Box::new(BinaryExpression { left, operator, right }.into())
}

#[test]
fn parse_identifier() {
    let source = "foo;";

    let ident: Identifier = Parser::new(source).parse().unwrap();

    assert_eq!(ident, Identifier {
        identifier: "foo".into(),
    });
}

#[test]
fn parse_number() {
    let source = "42;";

    let num: Number = Parser::new(source).parse().unwrap();

    assert_eq!(num, Number {
        number: 42,
    });
}

#[test]
fn parse_neg_number() {
    let source = "-42;";

    let unary: UnaryExpression = Parser::new(source).parse().unwrap();

    assert_eq!(unary, UnaryExpression {
        operator: Operator::Subtract,
        operand: Box::new(Number {
            number: 42,
        }.into()),
    });
}

#[test]
fn parse_binary_expression() {
    let source = "5 * 3;";

    let binary: Expression = Parser::new(source).parse().unwrap();

    assert_eq!(binary, BinaryExpression {
        left: Box::new(Number {
            number: 5,
        }.into()),
        operator: Operator::Multiply,
        right: Box::new(Number {
            number: 3,
        }.into()),
    }.into());
}

#[test]
fn all_together() {
    let source = "foo = 42; bar = 10 * foo + foo / 3;";

    let program: Program = Parser::new(source).parse().unwrap();

    assert_eq!(program, Program {
        body: vec![
            BinaryExpression {
                left: Box::new(Identifier {
                    identifier: "foo".into(),
                }.into()),
                operator: Operator::Assign,
                right: Box::new(Number {
                    number: 42,
                }.into()),
            }.into(),
            BinaryExpression {
                left: Box::new(Identifier {
                    identifier: "bar".into(),
                }.into()),
                operator: Operator::Assign,
                right: Box::new(BinaryExpression {
                    left: Box::new(BinaryExpression {
                        left: Box::new(Number {
                            number: 10,
                        }.into()),
                        operator: Operator::Multiply,
                        right: Box::new(Identifier {
                            identifier: "foo".into(),
                        }.into()),
                    }.into()),
                    operator: Operator::Add,
                    right: Box::new(BinaryExpression {
                        left: Box::new(Identifier {
                            identifier: "foo".into(),
                        }.into()),
                        operator: Operator::Divide,
                        right: Box::new(Number {
                            number: 3,
                        }.into()),
                    }.into()),
                }.into())
            }.into(),
        ]
    });
}

#[test]
fn multiplication_binds_tighter_than_addition() {
    let e: Expression = Parser::new("10 * foo + foo / 3;").parse().unwrap();
    let expect = binary(
        binary(num(10), Operator::Multiply, ident("foo")),
        Operator::Add,
        binary(ident("foo"), Operator::Divide, num(3)),
    );
    assert_eq!(e, *expect);
    let wrong = binary(
        binary(num(10), Operator::Multiply, binary(ident("foo"), Operator::Add, ident("foo"))),
        Operator::Divide,
        num(3),
    );
    assert_ne!(e, *wrong);
}

#[test]
fn addition_after_multiplication_on_the_right() {
    let e: Expression = Parser::new("1 + 2 * 3").parse().unwrap();
    assert_eq!(e, *binary(num(1), Operator::Add, binary(num(2), Operator::Multiply, num(3))));
}

#[test]
fn equal_powers_group_to_the_right() {
    let e: Expression = Parser::new("10 - 3 - 2;").parse().unwrap();
    assert_eq!(e, *binary(num(10), Operator::Subtract, binary(num(3), Operator::Subtract, num(2))));
}

#[test]
fn assignment_binds_loosest() {
    let e: Expression = Parser::new("a = b = 1 + 2").parse().unwrap();
    assert_eq!(
        e,
        *binary(
            ident("a"),
            Operator::Assign,
            binary(ident("b"), Operator::Assign, binary(num(1), Operator::Add, num(2))),
        )
    );
}

#[test]
fn prefix_minus_takes_one_atom() {
    let e: Expression = Parser::new("-1 + 2;").parse().unwrap();
    let minus_one: Expression =
        UnaryExpression { operator: Operator::Subtract, operand: num(1) }.into();
    assert_eq!(e, *binary(Box::new(minus_one), Operator::Add, num(2)));
}

#[test]
fn prefix_operators_nest() {
    let u: UnaryExpression = Parser::new("+-x").parse().unwrap();
    let inner: Expression =
        UnaryExpression { operator: Operator::Subtract, operand: ident("x") }.into();
    assert_eq!(u, UnaryExpression { operator: Operator::Add, operand: Box::new(inner) });
}

#[test]
fn only_plus_and_minus_are_prefix() {
    assert!(Parser::new("*5").parse::<UnaryExpression>().is_err());
    assert!(Parser::new("/5").parse::<Expression>().is_err());
    assert!(Parser::new("= 5").parse::<Program>().is_err());
}

#[test]
fn wrong_token_kind_fails() {
    assert!(Parser::new("42;").parse::<Identifier>().is_err());
    assert!(Parser::new("foo").parse::<Number>().is_err());
    assert!(Parser::new(";").parse::<Expression>().is_err());
    assert!(Parser::new("").parse::<Expression>().is_err());
    assert!(Parser::new("5 *").parse::<Expression>().is_err());
}

#[test]
fn operators_parse_one_to_one() {
    assert_eq!(Parser::new("+").parse::<Operator>().unwrap(), Operator::Add);
    assert_eq!(Parser::new("-").parse::<Operator>().unwrap(), Operator::Subtract);
    assert_eq!(Parser::new("*").parse::<Operator>().unwrap(), Operator::Multiply);
    assert_eq!(Parser::new("/").parse::<Operator>().unwrap(), Operator::Divide);
    assert_eq!(Parser::new("=").parse::<Operator>().unwrap(), Operator::Assign);
    assert!(Parser::new(";").parse::<Operator>().is_err());
}

#[test]
fn binary_expression_needs_an_operator() {
    let b: BinaryExpression = Parser::new("1 + 2").parse().unwrap();
    assert_eq!(b, BinaryExpression { left: num(1), operator: Operator::Add, right: num(2) });
    assert!(Parser::new("5;").parse::<BinaryExpression>().is_err());
}

#[test]
fn parsing_continues_where_it_stopped() {
    let mut parser = Parser::new("5 * 3; x");
    let first: Expression = parser.parse().unwrap();
    assert_eq!(first, *binary(num(5), Operator::Multiply, num(3)));
    let rest: Program = parser.parse().unwrap();
    assert_eq!(rest, Program { body: vec![*ident("x")] });
}

#[test]
fn empty_source_is_an_empty_program() {
    let p: Program = Parser::new("").parse().unwrap();
    assert_eq!(p, Program { body: vec![] });
    let p: Program = Parser::new(";").parse().unwrap();
    assert_eq!(p, Program { body: vec![] });
    let p: Program = Parser::new(" ;;\n ; ").parse().unwrap();
    assert_eq!(p, Program { body: vec![] });
}

#[test]
fn last_statement_needs_no_semicolon() {
    let p: Program = Parser::new("a; ;b").parse().unwrap();
    assert_eq!(p, Program { body: vec![*ident("a"), *ident("b")] });
}

#[test]
fn unrecognized_byte_fails_the_program() {
    assert!(Parser::new("#").parse::<Program>().is_err());
    assert!(Parser::new("foo = 1; #").parse::<Program>().is_err());
    assert!(Parser::new("foo = 1 # 2;").parse::<Program>().is_err());
    assert!(Parser::new("5 * 3 #").parse::<Expression>().is_err());
}

#[test]
fn binding_powers() {
    assert_eq!(Operator::Assign.binding_power(), 1);
    assert_eq!(Operator::Add.binding_power(), 2);
    assert_eq!(Operator::Subtract.binding_power(), 2);
    assert_eq!(Operator::Multiply.binding_power(), 3);
    assert_eq!(Operator::Divide.binding_power(), 3);
}

#[test]
fn operator_from_token() {
    assert_eq!(Operator::from_token(&Token::Divide), Some(Operator::Divide));
    assert_eq!(Operator::from_token(&Token::Assign), Some(Operator::Assign));
    assert_eq!(Operator::from_token(&Token::Semicolon), None);
    assert_eq!(Operator::from_token(&Token::Number(3)), None);
}

#[test]
fn parse_simple_and_nested() {
    let mut parser = Parser::new("2 * 3 + 4");
    let atom = parser.parse_simple().unwrap();
    assert_eq!(atom, *num(2));
    let e = parser.parse_nested(atom, 3).unwrap();
    assert_eq!(e, *binary(num(2), Operator::Multiply, num(3)));
    let rest = parser.parse_nested(e, 0).unwrap();
    assert_eq!(
        rest,
        *binary(binary(num(2), Operator::Multiply, num(3)), Operator::Add, num(4))
    );
}
