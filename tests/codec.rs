use sc3tools::codec::{Error, Expr, PresentAction, Sc3String, StringToken};

fn encoded(t: &StringToken) -> Vec<u8> {
    let mut v = Vec::new();
    t.encode(&mut v);
    v
}

#[test]
fn unrecognized_instr() {
    let i = vec![0x05u8];
    let res = StringToken::decode(&i);
    println!("{:?}", res);
    assert_eq!(res.is_err(), true);
}

#[test]
fn unrecognized_instr_names_the_byte() {
    let i = vec![0x05u8];
    assert_eq!(StringToken::decode(&i).unwrap_err(), Error::UnrecognizedInstr(0x05));
}

#[test]
fn parse_expr() {
    let expr = vec![0x29, 0x0A, 0xA0, 0x5A, 0x14, 0x14, 0x00, 0x80, 0x00, 0x00];
    assert_eq!(Expr::parse(&expr).unwrap().1, Expr(expr.clone()));
}

#[test]
fn parse_expr_leaves_the_rest() {
    let bytes = vec![0x29, 0x0A, 0x00, 0x01, 0x02];
    let (rest, e) = Expr::parse(&bytes).unwrap();
    assert_eq!(e, Expr(vec![0x29, 0x0A, 0x00]));
    assert_eq!(rest, &[0x01u8, 0x02][..]);
}

#[test]
fn parse_expr_truncated() {
    assert_eq!(Expr::parse(&[0x29, 0x0A]).unwrap_err(), Error::ExpectedMoreInput);
    assert_eq!(Expr::parse(&[0xC0, 0x01]).unwrap_err(), Error::ExpectedMoreInput);
    assert_eq!(Expr::parse(&[]).unwrap_err(), Error::ExpectedMoreInput);
}

#[test]
fn const_len_buckets() {
    assert_eq!(Expr::const_len(0x80), 1);
    assert_eq!(Expr::const_len(0x9F), 1);
    assert_eq!(Expr::const_len(0xA0), 2);
    assert_eq!(Expr::const_len(0xBF), 2);
    assert_eq!(Expr::const_len(0xC0), 3);
    assert_eq!(Expr::const_len(0xDF), 3);
    assert_eq!(Expr::const_len(0xE0), 4);
    assert_eq!(Expr::const_len(0xFF), 4);
}

#[test]
fn expr_constant_spans_its_bucket() {
    // 0xE0: four bytes of constant and one trailing byte, then the terminator
    let bytes = vec![0xE0, 1, 2, 3, 4, 0x00];
    assert_eq!(Expr::parse(&bytes).unwrap().1, Expr(bytes.clone()));
    let short = vec![0xE0, 1, 2, 3, 0x00];
    assert!(Expr::parse(&short).is_err());
}

#[test]
fn decode_opcodes() {
    let cases: Vec<(u8, StringToken)> = vec![
        (0x00, StringToken::LineBreak),
        (0x01, StringToken::NameStart),
        (0x02, StringToken::LineStart),
        (0x03, StringToken::Present(PresentAction::Plain)),
        (0x08, StringToken::Present(PresentAction::ResetAlignment)),
        (0x09, StringToken::RubyBaseStart),
        (0x0A, StringToken::RubyTextStart),
        (0x0B, StringToken::RubyTextEnd),
        (0x0E, StringToken::Parallel),
        (0x0F, StringToken::Center),
        (0x18, StringToken::Present(PresentAction::Unknown0x18)),
        (0x19, StringToken::AutoForward),
        (0x1A, StringToken::AutoForward1A),
        (0x1E, StringToken::RubyCenterPerChar),
        (0xFF, StringToken::Terminator),
    ];
    for (b, t) in cases {
        let bytes = vec![b, 0x42];
        let (rest, got) = StringToken::decode(&bytes).unwrap();
        assert_eq!(got, t);
        assert_eq!(rest, &[0x42u8][..]);
    }
}

#[test]
fn decode_u16_payloads() {
    let (_, t) = StringToken::decode(&[0x0C, 0x01, 0x02]).unwrap();
    assert_eq!(t, StringToken::FontSize(0x0102));
    let (_, t) = StringToken::decode(&[0x11, 0x00, 0x10]).unwrap();
    assert_eq!(t, StringToken::MarginTop(0x10));
    let (_, t) = StringToken::decode(&[0x12, 0xAB, 0xCD]).unwrap();
    assert_eq!(t, StringToken::MarginLeft(0xABCD));
    let (_, t) = StringToken::decode(&[0x13, 0xFF, 0xFF]).unwrap();
    assert_eq!(t, StringToken::HardcodedValue(0xFFFF));
    assert_eq!(StringToken::decode(&[0x0C, 0x01]).unwrap_err(), Error::ExpectedMoreInput);
}

#[test]
fn decode_text_run() {
    let bytes = vec![0x80, 0x01, 0x81, 0xFF, 0x00];
    let (rest, t) = StringToken::decode(&bytes).unwrap();
    assert_eq!(t, StringToken::Text(vec![0x8001, 0x81FF]));
    assert_eq!(rest, &[0x00u8][..]);
    // a run that reaches the end of the bytes without an opcode fails
    assert_eq!(StringToken::decode(&[0x80, 0x01]).unwrap_err(), Error::ExpectedMoreInput);
    assert_eq!(StringToken::decode(&[0x80]).unwrap_err(), Error::ExpectedMoreInput);
}

#[test]
fn decode_empty_input() {
    assert_eq!(StringToken::decode(&[]).unwrap_err(), Error::ExpectedMoreInput);
}

#[test]
fn decode_color_and_eval() {
    let (rest, t) = StringToken::decode(&[0x04, 0x29, 0x0A, 0x00, 0x01]).unwrap();
    assert_eq!(t, StringToken::Color(Expr(vec![0x29, 0x0A, 0x00])));
    assert_eq!(rest, &[0x01u8][..]);
    let (_, t) = StringToken::decode(&[0x15, 0x00]).unwrap();
    assert_eq!(t, StringToken::Eval(Expr(vec![0x00])));
}

#[test]
fn encode_bytes() {
    assert_eq!(encoded(&StringToken::FontSize(0x0102)), vec![0x0C, 0x01, 0x02]);
    assert_eq!(encoded(&StringToken::Text(vec![0x8001, 0x9234])), vec![0x80, 0x01, 0x92, 0x34]);
    assert_eq!(encoded(&StringToken::Terminator), vec![0xFF]);
    assert_eq!(encoded(&StringToken::Eval(Expr(vec![0x29, 0x0A, 0x00]))), vec![0x15, 0x29, 0x0A, 0x00]);
}

#[test]
fn token_round_trip() {
    let tokens = vec![
        StringToken::Text(vec![0x8001, 0xFE00]),
        StringToken::LineBreak,
        StringToken::Present(PresentAction::ResetAlignment),
        StringToken::Color(Expr(vec![0xA0, 0x5A, 0x14, 0x00])),
        StringToken::FontSize(40),
        StringToken::MarginLeft(0x1234),
        StringToken::Eval(Expr(vec![0x29, 0x0A, 0x00])),
        StringToken::AutoForward1A,
        StringToken::Terminator,
    ];
    for t in tokens {
        let mut bytes = encoded(&t);
        bytes.push(0xFF);
        let (rest, back) = StringToken::decode(&bytes).unwrap();
        assert_eq!(back, t);
        assert_eq!(rest, &[0xFFu8][..]);
    }
}

#[test]
fn stream_round_trip() {
    let bytes = vec![0x01, 0x80, 0x10, 0x81, 0x20, 0x02, 0x0C, 0x00, 0x20, 0x80, 0x05, 0xFF, 0x33];
    let s = Sc3String(bytes.clone());
    let mut it = s.iter();
    let mut out = Vec::new();
    while let Some(t) = it.next() {
        encoded(&t.unwrap()).iter().for_each(|b| out.push(*b));
    }
    assert_eq!(out, bytes[..11].to_vec());
}

#[test]
fn iteration_stops_at_terminator_and_after_error() {
    let s = Sc3String(vec![0x00, 0xFF, 0x01]);
    let mut it = s.iter();
    assert_eq!(it.next().unwrap().unwrap(), StringToken::LineBreak);
    assert!(it.next().is_none());
    assert!(it.next().is_none());

    let s = Sc3String(vec![0x00, 0x05, 0x01]);
    let mut it = s.iter();
    assert_eq!(it.next().unwrap().unwrap(), StringToken::LineBreak);
    assert_eq!(it.next().unwrap().unwrap_err(), Error::UnrecognizedInstr(0x05));
    assert!(it.next().is_none());
}

#[test]
fn tokens_of_a_string() {
    let s = Sc3String(vec![0x01, 0x80, 0x10, 0x02, 0xFF, 0x05]);
    assert_eq!(
        s.tokens().unwrap(),
        vec![StringToken::NameStart, StringToken::Text(vec![0x8010]), StringToken::LineStart]
    );
    let bad = Sc3String(vec![0x01, 0x07]);
    assert_eq!(bad.tokens().unwrap_err(), Error::UnrecognizedInstr(0x07));
    assert_eq!(Sc3String(vec![]).tokens().unwrap(), vec![]);
}
