use vstd::prelude::*;
use vstd::slice::{slice_subrange, slice_to_vec};

verus! {

/// Errors raised while reading a script container or its token streams.
#[derive(Debug, Clone, Copy, PartialEq, Eq, Structural)]
pub enum Error {
    UnrecognizedFormat,
    CorruptedFile,
    ExpectedMoreInput,
    UnrecognizedInstr(u8),
}

/// Sub-kinds of the presentation token.
#[derive(Debug, Clone, Copy, PartialEq, Eq, Structural)]
pub enum PresentAction {
    Plain,
    ResetAlignment,
    Unknown0x18,
}

/// Mathematical value of a token: what the bytes of a token stream mean.
pub enum TokenValue {
    Text(Seq<u16>),
    LineBreak,
    NameStart,
    LineStart,
    Present(PresentAction),
    Color(Seq<u8>),
    RubyBaseStart,
    RubyTextStart,
    RubyTextEnd,
    FontSize(u16),
    Parallel,
    Center,
    MarginTop(u16),
    MarginLeft(u16),
    HardcodedValue(u16),
    Eval(Seq<u8>),
    AutoForward,
    AutoForward1A,
    RubyCenterPerChar,
    Terminator,
}

/// A byte that the token decoder consumes as an opcode rather than as the
/// first byte of a text code unit.
pub open spec fn is_opcode(b: u8) -> bool {
    b < 0x80 || b == 0xFF
}

/// Number of bytes of a variable-length constant in an expression whose
/// first byte is `b` (for `b >= 0x80`).
pub open spec fn const_len_of(b: u8) -> int
    recommends b >= 0x80,
{
    (((b & 0xE0) - 0x80) as u8 / 0x20 + 1) as int
}

/// Length of one expression token starting with byte `b`.
pub open spec fn expr_token_len(b: u8) -> int {
    if b < 0x80 {
        2
    } else {
        const_len_of(b) + 1
    }
}

/// Where an expression that starts at `i` ends (one past its `0x00`
/// terminator), or `None` when the bytes run out first.
pub open spec fn expr_end(s: Seq<u8>, i: int) -> Option<int>
    decreases s.len() - i,
{
    if i < 0 || i >= s.len() {
        None
    } else if s[i] == 0 {
        Some(i + 1)
    } else if i + expr_token_len(s[i]) > s.len() {
        None
    } else {
        expr_end(s, i + expr_token_len(s[i]))
    }
}

/// A big-endian 16-bit unit from two bytes.
pub open spec fn be16(hi: u8, lo: u8) -> u16 {
    (hi as int * 256 + lo as int) as u16
}

/// Big-endian bytes of a 16-bit value.
pub open spec fn be16_bytes(v: u16) -> Seq<u8> {
    seq![(v as int / 256) as u8, (v as int % 256) as u8]
}

/// The code units of a text run starting at `i`: units are read until the
/// byte at a unit boundary is an opcode; `None` when the bytes run out first.
pub open spec fn text_run(s: Seq<u8>, i: int) -> Option<Seq<u16>>
    decreases s.len() - i,
{
    if i < 0 {
        None
    } else if i < s.len() && is_opcode(s[i]) {
        Some(Seq::empty())
    } else if i + 2 <= s.len() {
        match text_run(s, i + 2) {
            Some(r) => Some(seq![be16(s[i], s[i + 1])] + r),
            None => None,
        }
    } else {
        None
    }
}

/// The tokens that take no payload, by opcode.
pub open spec fn bare_token(b: u8) -> Option<TokenValue> {
    if b == 0x00 {
        Some(TokenValue::LineBreak)
    } else if b == 0x01 {
        Some(TokenValue::NameStart)
    } else if b == 0x02 {
        Some(TokenValue::LineStart)
    } else if b == 0x03 {
        Some(TokenValue::Present(PresentAction::Plain))
    } else if b == 0x08 {
        Some(TokenValue::Present(PresentAction::ResetAlignment))
    } else if b == 0x09 {
        Some(TokenValue::RubyBaseStart)
    } else if b == 0x0A {
        Some(TokenValue::RubyTextStart)
    } else if b == 0x0B {
        Some(TokenValue::RubyTextEnd)
    } else if b == 0x0E {
        Some(TokenValue::Parallel)
    } else if b == 0x0F {
        Some(TokenValue::Center)
    } else if b == 0x18 {
        Some(TokenValue::Present(PresentAction::Unknown0x18))
    } else if b == 0x19 {
        Some(TokenValue::AutoForward)
    } else if b == 0x1A {
        Some(TokenValue::AutoForward1A)
    } else if b == 0x1E {
        Some(TokenValue::RubyCenterPerChar)
    } else if b == 0xFF {
        Some(TokenValue::Terminator)
    } else {
        None
    }
}

/// The token with a 16-bit payload for opcode `b`, if `b` is such an opcode.
pub open spec fn u16_token(b: u8, v: u16) -> Option<TokenValue> {
    if b == 0x0C {
        Some(TokenValue::FontSize(v))
    } else if b == 0x11 {
        Some(TokenValue::MarginTop(v))
    } else if b == 0x12 {
        Some(TokenValue::MarginLeft(v))
    } else if b == 0x13 {
        Some(TokenValue::HardcodedValue(v))
    } else {
        None
    }
}

/// Decoding of the token that starts at `i`: the token and the position
/// after it, or the error.
pub open spec fn decode_at_spec(s: Seq<u8>, i: int) -> Result<(TokenValue, int), Error> {
    if i < 0 || i >= s.len() {
        Err(Error::ExpectedMoreInput)
    } else {
        let b = s[i];
        if !is_opcode(b) {
            match text_run(s, i) {
                Some(u) => Ok((TokenValue::Text(u), i + 2 * u.len())),
                None => Err(Error::ExpectedMoreInput),
            }
        } else if bare_token(b) is Some {
            Ok((bare_token(b)->0, i + 1))
        } else if b == 0x04 || b == 0x15 {
            match expr_end(s, i + 1) {
                Some(e) => Ok(
                    (
                        if b == 0x04 {
                            TokenValue::Color(s.subrange(i + 1, e))
                        } else {
                            TokenValue::Eval(s.subrange(i + 1, e))
                        },
                        e,
                    ),
                ),
                None => Err(Error::ExpectedMoreInput),
            }
        } else if u16_token(b, 0) is Some {
            if i + 3 <= s.len() {
                Ok((u16_token(b, be16(s[i + 1], s[i + 2]))->0, i + 3))
            } else {
                Err(Error::ExpectedMoreInput)
            }
        } else {
            Err(Error::UnrecognizedInstr(b))
        }
    }
}

/// Opcode byte of a token other than a text run.
pub open spec fn opcode_of(t: TokenValue) -> u8 {
    match t {
        TokenValue::Text(_) => 0,
        TokenValue::LineBreak => 0x00,
        TokenValue::NameStart => 0x01,
        TokenValue::LineStart => 0x02,
        TokenValue::Present(PresentAction::Plain) => 0x03,
        TokenValue::Color(_) => 0x04,
        TokenValue::Present(PresentAction::ResetAlignment) => 0x08,
        TokenValue::RubyBaseStart => 0x09,
        TokenValue::RubyTextStart => 0x0A,
        TokenValue::RubyTextEnd => 0x0B,
        TokenValue::FontSize(_) => 0x0C,
        TokenValue::Parallel => 0x0E,
        TokenValue::Center => 0x0F,
        TokenValue::MarginTop(_) => 0x11,
        TokenValue::MarginLeft(_) => 0x12,
        TokenValue::HardcodedValue(_) => 0x13,
        TokenValue::Eval(_) => 0x15,
        TokenValue::Present(PresentAction::Unknown0x18) => 0x18,
        TokenValue::AutoForward => 0x19,
        TokenValue::AutoForward1A => 0x1A,
        TokenValue::RubyCenterPerChar => 0x1E,
        TokenValue::Terminator => 0xFF,
    }
}

/// Big-endian bytes of a sequence of code units.
pub open spec fn units_bytes(u: Seq<u16>) -> Seq<u8>
    decreases u.len(),
{
    if u.len() == 0 {
        Seq::empty()
    } else {
        be16_bytes(u[0]) + units_bytes(u.drop_first())
    }
}

/// The bytes that encode a token.
pub open spec fn encode_spec(t: TokenValue) -> Seq<u8> {
    match t {
        TokenValue::Text(u) => units_bytes(u),
        TokenValue::Color(e) => seq![0x04u8] + e,
        TokenValue::Eval(e) => seq![0x15u8] + e,
        TokenValue::FontSize(v) => seq![0x0Cu8] + be16_bytes(v),
        TokenValue::MarginTop(v) => seq![0x11u8] + be16_bytes(v),
        TokenValue::MarginLeft(v) => seq![0x12u8] + be16_bytes(v),
        TokenValue::HardcodedValue(v) => seq![0x13u8] + be16_bytes(v),
        _ => seq![opcode_of(t)],
    }
}

/// The tokens of the stream that starts at `i`, read up to the end of the
/// bytes or to the first terminator (which is not included), or the first
/// decoding error.
pub open spec fn decode_stream(s: Seq<u8>, i: int) -> Result<Seq<TokenValue>, Error>
    decreases s.len() - i,
{
    if i < 0 || i >= s.len() {
        Ok(Seq::empty())
    } else {
        match decode_at_spec(s, i) {
            // a decoded token always advances within the bytes
            // (`lemma_encode_decoded`); the bounds only make the recursion's
            // measure plain
            Ok((t, e)) => if t is Terminator || e <= i || e > s.len() {
                Ok(Seq::empty())
            } else {
                match decode_stream(s, e) {
                    Ok(ts) => Ok(seq![t] + ts),
                    Err(x) => Err(x),
                }
            },
            Err(x) => Err(x),
        }
    }
}

/// The variable-length constant takes one byte more for each `0x20`-wide
/// bucket of its first byte above `0x80`: one byte for `0x80..=0x9F` up to
/// four for `0xE0..=0xFF`.
pub proof fn lemma_const_len_buckets(b: u8)
    requires
        b >= 0x80,
    ensures
        const_len_of(b) == (b as int - 0x80) / 0x20 + 1,
        1 <= const_len_of(b) <= 4,
{
    assert((((b & 0xE0) - 0x80) as u8 / 0x20) == (b - 0x80) as u8 / 0x20) by (bit_vector)
        requires
            b >= 0x80,
    ;
}

/// The concatenated encodings of a sequence of tokens.
pub open spec fn encode_all(ts: Seq<TokenValue>) -> Seq<u8>
    decreases ts.len(),
{
    if ts.len() == 0 {
        Seq::empty()
    } else {
        encode_spec(ts[0]) + encode_all(ts.drop_first())
    }
}

/// A text code unit whose high byte is not an opcode.
pub open spec fn is_text_unit(c: u16) -> bool {
    0x8000 <= c < 0xFF00
}

/// A token value that a token stream can hold: text runs are non-empty
/// and made of text units, expressions are exactly one well-formed
/// expression.
pub open spec fn token_wf(t: TokenValue) -> bool {
    match t {
        TokenValue::Text(u) => u.len() > 0 && forall|k: int| 0 <= k < u.len() ==> is_text_unit(#[trigger] u[k]),
        TokenValue::Color(e) => expr_end(e, 0) == Some(e.len() as int),
        TokenValue::Eval(e) => expr_end(e, 0) == Some(e.len() as int),
        _ => true,
    }
}


/// An opaque expression: its bytes, `0x00` terminator included, kept verbatim.
#[derive(Debug, Clone)]
pub struct Expr(pub Vec<u8>);

impl View for Expr {
    type V = Seq<u8>;

    open spec fn view(&self) -> Seq<u8> {
        self.0@
    }
}

impl Expr {
    /// Number of bytes of a variable-length constant whose first byte is `b`.
    pub fn const_len(b: u8) -> (r: usize)
        requires
            b >= 0x80,
        ensures
            r as int == const_len_of(b),
            r as int == (b as int - 0x80) / 0x20 + 1,
    {
        proof {
            lemma_const_len_buckets(b);
        }
        assert(b & 0xE0 >= 0x80) by (bit_vector)
            requires
                b >= 0x80,
        ;
        (((b & 0xE0) - 0x80) / 0x20 + 1) as usize
    }

    /// Parses one expression at the start of `i`: the expression and the
    /// bytes after it.
    pub fn parse(i: &[u8]) -> (r: Result<(&[u8], Expr), Error>)
        ensures
            match r {
                Ok((rest, e)) => expr_end(i@, 0) == Some(e@.len() as int) && e@ == i@.take(
                    e@.len() as int,
                ) && rest@ == i@.skip(e@.len() as int),
                Err(err) => expr_end(i@, 0) is None && err == Error::ExpectedMoreInput,
            },
    {
        match expr_end_at(i, 0) {
            Some(end) => {
                let e = Expr(slice_to_vec(slice_subrange(i, 0, end)));
                let rest = slice_subrange(i, end, i.len());
                assert(rest@ =~= i@.skip(end as int));
                Ok((rest, e))
            },
            None => Err(Error::ExpectedMoreInput),
        }
    }
}

/// An expression ends after its start and within the bytes.
pub proof fn lemma_expr_end_bounds(s: Seq<u8>, i: int)
    ensures
        expr_end(s, i) matches Some(e) ==> i < e <= s.len(),
    decreases s.len() - i,
{
    if 0 <= i < s.len() && s[i] != 0 && i + expr_token_len(s[i]) <= s.len() {
        lemma_expr_end_bounds(s, i + expr_token_len(s[i]));
    }
}

/// Position one past the end of the expression that starts at `start`.
fn expr_end_at(s: &[u8], start: usize) -> (r: Option<usize>)
    ensures
        match r {
            Some(e) => expr_end(s@, start as int) == Some(e as int),
            None => expr_end(s@, start as int) is None,
        },
        r matches Some(e) ==> start < e <= s@.len(),
{
    proof {
        lemma_expr_end_bounds(s@, start as int);
    }
    let mut pos: usize = start;
    loop
        invariant
            start <= pos,
            expr_end(s@, pos as int) == expr_end(s@, start as int),
        decreases s@.len() - pos,
    {
        if pos >= s.len() {
            return None;
        }
        let b = s[pos];
        if b == 0 {
            return Some(pos + 1);
        }
        let n: usize = if b < 0x80 {
            2
        } else {
            Expr::const_len(b) + 1
        };
        if n > s.len() - pos {
            return None;
        }
        pos = pos + n;
    }
}


/// One token of a string's token stream.
#[derive(Debug, Clone)]
pub enum StringToken {
    Text(Vec<u16>),
    LineBreak,
    NameStart,
    LineStart,
    Present(PresentAction),
    Color(Expr),
    RubyBaseStart,
    RubyTextStart,
    RubyTextEnd,
    FontSize(u16),
    Parallel,
    Center,
    MarginTop(u16),
    MarginLeft(u16),
    HardcodedValue(u16),
    Eval(Expr),
    AutoForward,
    AutoForward1A,
    RubyCenterPerChar,
    Terminator,
}

impl View for StringToken {
    type V = TokenValue;

    open spec fn view(&self) -> TokenValue {
        match self {
            StringToken::Text(u) => TokenValue::Text(u@),
            StringToken::LineBreak => TokenValue::LineBreak,
            StringToken::NameStart => TokenValue::NameStart,
            StringToken::LineStart => TokenValue::LineStart,
            StringToken::Present(a) => TokenValue::Present(*a),
            StringToken::Color(e) => TokenValue::Color(e@),
            StringToken::RubyBaseStart => TokenValue::RubyBaseStart,
            StringToken::RubyTextStart => TokenValue::RubyTextStart,
            StringToken::RubyTextEnd => TokenValue::RubyTextEnd,
            StringToken::FontSize(v) => TokenValue::FontSize(*v),
            StringToken::Parallel => TokenValue::Parallel,
            StringToken::Center => TokenValue::Center,
            StringToken::MarginTop(v) => TokenValue::MarginTop(*v),
            StringToken::MarginLeft(v) => TokenValue::MarginLeft(*v),
            StringToken::HardcodedValue(v) => TokenValue::HardcodedValue(*v),
            StringToken::Eval(e) => TokenValue::Eval(e@),
            StringToken::AutoForward => TokenValue::AutoForward,
            StringToken::AutoForward1A => TokenValue::AutoForward1A,
            StringToken::RubyCenterPerChar => TokenValue::RubyCenterPerChar,
            StringToken::Terminator => TokenValue::Terminator,
        }
    }
}

/// The big-endian 16-bit value at `pos`.
fn read_be16(s: &[u8], pos: usize) -> (r: u16)
    requires
        pos + 2 <= s@.len(),
    ensures
        r == be16(s@[pos as int], s@[pos as int + 1]),
{
    (s[pos] as u16) * 256 + s[pos + 1] as u16
}

/// The code units of the text run that starts at `start`, and the position
/// after them.
fn read_text_run(s: &[u8], start: usize) -> (r: Option<(Vec<u16>, usize)>)
    requires
        start <= s@.len(),
    ensures
        match r {
            Some((u, e)) => text_run(s@, start as int) == Some(u@) && e == start + 2 * u@.len()
                && e <= s@.len(),
            None => text_run(s@, start as int) is None,
        },
{
    let mut units: Vec<u16> = Vec::new();
    let mut pos: usize = start;
    loop
        invariant
            start <= pos <= s@.len(),
            pos == start + 2 * units@.len(),
            text_run(s@, start as int) == (match text_run(s@, pos as int) {
                Some(r) => Some(units@ + r),
                None => None,
            }),
        decreases s@.len() - pos,
    {
        if pos < s.len() && (s[pos] < 0x80 || s[pos] == 0xFF) {
            assert(units@ + Seq::<u16>::empty() =~= units@);
            return Some((units, pos));
        }
        if s.len() - pos < 2 {
            return None;
        }
        let u = read_be16(s, pos);
        proof {
            let ghost old_units = units@;
            match text_run(s@, pos as int + 2) {
                Some(r) => {
                    assert(old_units + (seq![u] + r) =~= old_units.push(u) + r);
                },
                None => {},
            }
        }
        units.push(u);
        pos = pos + 2;
    }
}

/// The token with a 16-bit payload for opcode `b`.
fn u16_token_of(b: u8, v: u16) -> (r: StringToken)
    requires
        u16_token(b, 0) is Some,
    ensures
        u16_token(b, v) == Some(r@),
{
    if b == 0x0C {
        StringToken::FontSize(v)
    } else if b == 0x11 {
        StringToken::MarginTop(v)
    } else if b == 0x12 {
        StringToken::MarginLeft(v)
    } else {
        StringToken::HardcodedValue(v)
    }
}

/// Decodes the token that starts at `pos`: the token and the position after it.
fn decode_at(s: &[u8], pos: usize) -> (r: Result<(StringToken, usize), Error>)
    requires
        pos <= s@.len(),
    ensures
        match r {
            Ok((t, e)) => decode_at_spec(s@, pos as int) == Ok::<(TokenValue, int), Error>(
                (t@, e as int),
            ) && e <= s@.len(),
            Err(err) => decode_at_spec(s@, pos as int) == Err::<(TokenValue, int), Error>(err),
        },
{
    if pos >= s.len() {
        return Err(Error::ExpectedMoreInput);
    }
    let b = s[pos];
    if !(b < 0x80 || b == 0xFF) {
        return match read_text_run(s, pos) {
            Some((u, e)) => Ok((StringToken::Text(u), e)),
            None => Err(Error::ExpectedMoreInput),
        };
    }
    let next = pos + 1;
    let t = match b {
        0x00 => StringToken::LineBreak,
        0x01 => StringToken::NameStart,
        0x02 => StringToken::LineStart,
        0x03 => StringToken::Present(PresentAction::Plain),
        0x08 => StringToken::Present(PresentAction::ResetAlignment),
        0x09 => StringToken::RubyBaseStart,
        0x0A => StringToken::RubyTextStart,
        0x0B => StringToken::RubyTextEnd,
        0x0E => StringToken::Parallel,
        0x0F => StringToken::Center,
        0x18 => StringToken::Present(PresentAction::Unknown0x18),
        0x19 => StringToken::AutoForward,
        0x1A => StringToken::AutoForward1A,
        0x1E => StringToken::RubyCenterPerChar,
        0xFF => StringToken::Terminator,
        0x04 | 0x15 => {
            return match expr_end_at(s, next) {
                Some(e) => {
                    let x = Expr(slice_to_vec(slice_subrange(s, next, e)));
                    if b == 0x04 {
                        Ok((StringToken::Color(x), e))
                    } else {
                        Ok((StringToken::Eval(x), e))
                    }
                },
                None => Err(Error::ExpectedMoreInput),
            };
        },
        0x0C | 0x11 | 0x12 | 0x13 => {
            if s.len() - next < 2 {
                return Err(Error::ExpectedMoreInput);
            }
            let v = read_be16(s, next);
            return Ok((u16_token_of(b, v), next + 2));
        },
        _ => {
            return Err(Error::UnrecognizedInstr(b));
        },
    };
    Ok((t, next))
}

proof fn lemma_units_bytes_push(u: Seq<u16>, x: u16)
    ensures
        units_bytes(u.push(x)) == units_bytes(u) + be16_bytes(x),
    decreases u.len(),
{
    if u.len() == 0 {
        assert(u.push(x).drop_first() =~= Seq::<u16>::empty());
        assert(units_bytes(u.push(x).drop_first()) =~= Seq::<u8>::empty());
        assert(u.push(x)[0] == x);
        assert(units_bytes(u.push(x)) =~= be16_bytes(x));
    } else {
        assert(u.push(x).drop_first() =~= u.drop_first().push(x));
        lemma_units_bytes_push(u.drop_first(), x);
        assert(units_bytes(u.push(x)) =~= units_bytes(u) + be16_bytes(x));
    }
}

/// Appends `src` to `sink`.
pub(crate) fn append_bytes(sink: &mut Vec<u8>, src: &[u8])
    ensures
        final(sink)@ == old(sink)@ + src@,
{
    let mut k: usize = 0;
    while k < src.len()
        invariant
            k <= src@.len(),
            sink@ == old(sink)@ + src@.take(k as int),
        decreases src@.len() - k,
    {
        sink.push(src[k]);
        assert(src@.take(k as int + 1) =~= src@.take(k as int).push(src@[k as int]));
        k = k + 1;
    }
    assert(src@.take(src@.len() as int) =~= src@);
}

/// Appends the big-endian bytes of `v` to `sink`.
fn push_be16(sink: &mut Vec<u8>, v: u16)
    ensures
        final(sink)@ == old(sink)@ + be16_bytes(v),
{
    sink.push((v / 256) as u8);
    sink.push((v % 256) as u8);
    assert(final(sink)@ =~= old(sink)@ + be16_bytes(v));
}

impl StringToken {
    /// Decodes the token at the start of `i`: the bytes after it and the token.
    pub fn decode(i: &[u8]) -> (r: Result<(&[u8], StringToken), Error>)
        ensures
            match r {
                Ok((rest, t)) => decode_at_spec(i@, 0) == Ok::<(TokenValue, int), Error>(
                    (t@, i@.len() - rest@.len()),
                ) && rest@ == i@.skip(i@.len() - rest@.len()),
                Err(err) => decode_at_spec(i@, 0) == Err::<(TokenValue, int), Error>(err),
            },
    {
        match decode_at(i, 0) {
            Ok((t, e)) => {
                let rest = slice_subrange(i, e, i.len());
                assert(rest@ =~= i@.skip(e as int));
                Ok((rest, t))
            },
            Err(err) => Err(err),
        }
    }
}


impl StringToken {
    /// Opcode byte of a token other than a text run.
    fn opcode(&self) -> (r: u8)
        ensures
            r == opcode_of(self@),
    {
        match self {
            StringToken::Text(_) => 0,
            StringToken::LineBreak => 0x00,
            StringToken::NameStart => 0x01,
            StringToken::LineStart => 0x02,
            StringToken::Present(PresentAction::Plain) => 0x03,
            StringToken::Color(_) => 0x04,
            StringToken::Present(PresentAction::ResetAlignment) => 0x08,
            StringToken::RubyBaseStart => 0x09,
            StringToken::RubyTextStart => 0x0A,
            StringToken::RubyTextEnd => 0x0B,
            StringToken::FontSize(_) => 0x0C,
            StringToken::Parallel => 0x0E,
            StringToken::Center => 0x0F,
            StringToken::MarginTop(_) => 0x11,
            StringToken::MarginLeft(_) => 0x12,
            StringToken::HardcodedValue(_) => 0x13,
            StringToken::Eval(_) => 0x15,
            StringToken::Present(PresentAction::Unknown0x18) => 0x18,
            StringToken::AutoForward => 0x19,
            StringToken::AutoForward1A => 0x1A,
            StringToken::RubyCenterPerChar => 0x1E,
            StringToken::Terminator => 0xFF,
        }
    }

    /// Appends the encoding of this token to `sink`: the opcode byte and the
    /// payload in big-endian order, or for a text run its code units.
    pub fn encode(&self, sink: &mut Vec<u8>)
        ensures
            final(sink)@ == old(sink)@ + encode_spec(self@),
    {
        if let StringToken::Text(chars) = self {
            let mut k: usize = 0;
            while k < chars.len()
                invariant
                    k <= chars@.len(),
                    sink@ == old(sink)@ + units_bytes(chars@.take(k as int)),
                decreases chars@.len() - k,
            {
                proof {
                    assert(chars@.take(k as int + 1) =~= chars@.take(k as int).push(chars@[k as int]));
                    lemma_units_bytes_push(chars@.take(k as int), chars@[k as int]);
                }
                push_be16(sink, chars[k]);
                proof {
                    assert(sink@ =~= old(sink)@ + units_bytes(chars@.take(k as int + 1)));
                }
                k = k + 1;
            }
            assert(chars@.take(chars@.len() as int) =~= chars@);
            return ;
        }
        sink.push(self.opcode());
        match self {
            StringToken::Color(e) => append_bytes(sink, e.0.as_slice()),
            StringToken::Eval(e) => append_bytes(sink, e.0.as_slice()),
            StringToken::FontSize(v) => push_be16(sink, *v),
            StringToken::MarginTop(v) => push_be16(sink, *v),
            StringToken::MarginLeft(v) => push_be16(sink, *v),
            StringToken::HardcodedValue(v) => push_be16(sink, *v),
            _ => {},
        }
        assert(sink@ =~= old(sink)@ + encode_spec(self@));
    }
}


/// The raw bytes of one string slot.
#[derive(Debug, Clone)]
pub struct Sc3String(pub Vec<u8>);

impl View for Sc3String {
    type V = Seq<u8>;

    open spec fn view(&self) -> Seq<u8> {
        self.0@
    }
}

impl Sc3String {
    /// All the tokens of the string, up to its end or its first terminator,
    /// or the first decoding error.
    pub fn tokens(&self) -> (r: Result<Vec<StringToken>, Error>)
        ensures
            match decode_stream(self@, 0) {
                Ok(ts) => r matches Ok(v) && v@.map_values(|t: StringToken| t@) == ts,
                Err(e) => r == Err::<Vec<StringToken>, Error>(e),
            },
    {
        let s = self.0.as_slice();
        let mut out: Vec<StringToken> = Vec::new();
        let mut pos: usize = 0;
        assert(out@.map_values(|t: StringToken| t@) =~= Seq::<TokenValue>::empty());
        loop
            invariant
                s@ == self@,
                pos <= s@.len(),
                decode_stream(s@, 0) == (match decode_stream(s@, pos as int) {
                    Ok(ts) => Ok(out@.map_values(|t: StringToken| t@) + ts),
                    Err(e) => Err(e),
                }),
            decreases s@.len() - pos,
        {
            if pos >= s.len() {
                assert(out@.map_values(|t: StringToken| t@) + Seq::<TokenValue>::empty()
                    =~= out@.map_values(|t: StringToken| t@));
                return Ok(out);
            }
            match decode_at(s, pos) {
                Ok((t, e)) => {
                    proof {
                        crate::token_laws::lemma_encode_decoded(s@, pos as int);
                    }
                    if let StringToken::Terminator = t {
                        assert(out@.map_values(|t: StringToken| t@) + Seq::<TokenValue>::empty()
                            =~= out@.map_values(|t: StringToken| t@));
                        return Ok(out);
                    }
                    let ghost before = out@.map_values(|t: StringToken| t@);
                    let ghost tv = t@;
                    out.push(t);
                    proof {
                        assert(out@.map_values(|t: StringToken| t@) =~= before.push(tv));
                        match decode_stream(s@, e as int) {
                            Ok(ts) => {
                                assert(before + (seq![tv] + ts) =~= before.push(tv) + ts);
                            },
                            Err(_) => {},
                        }
                    }
                    pos = e;
                },
                Err(err) => {
                    return Err(err);
                },
            }
        }
    }

    /// A reader of the string's tokens, from its first byte.
    pub fn iter(&self) -> (r: Sc3StringIter<'_>)
        ensures
            r.remaining@ == self@,
            !r.done,
    {
        Sc3StringIter { remaining: self.0.as_slice(), done: false }
    }
}

/// Reads the tokens of a string one at a time. It stops, without handing
/// it out, at the first terminator, and after the first decoding error,
/// which it hands out.
pub struct Sc3StringIter<'a> {
    pub remaining: &'a [u8],
    pub done: bool,
}

impl<'a> Sc3StringIter<'a> {
    /// The next token, or `None` at the end of the stream.
    pub fn next(&mut self) -> (r: Option<Result<StringToken, Error>>)
        ensures
            ({
                let s = old(self).remaining@;
                if old(self).done || s.len() == 0 {
                    r is None && *final(self) == *old(self)
                } else {
                    match decode_at_spec(s, 0) {
                        Ok((t, e)) => final(self).remaining@ == s.skip(e) && if t is Terminator {
                            r is None && final(self).done
                        } else {
                            r matches Some(Ok(tk)) && tk@ == t && !final(self).done
                        },
                        Err(err) => r == Some(Err::<StringToken, Error>(err)) && final(self).done,
                    }
                }
            }),
    {
        if self.done || self.remaining.len() == 0 {
            return None;
        }
        match decode_at(self.remaining, 0) {
            Ok((tk, e)) => {
                let rest = slice_subrange(self.remaining, e, self.remaining.len());
                assert(rest@ =~= self.remaining@.skip(e as int));
                self.remaining = rest;
                if let StringToken::Terminator = tk {
                    self.done = true;
                    None
                } else {
                    Some(Ok(tk))
                }
            },
            Err(err) => {
                self.done = true;
                Some(Err(err))
            },
        }
    }
}

/// Whether two byte sequences are equal.
fn bytes_eq(a: &[u8], b: &[u8]) -> (r: bool)
    ensures
        r == (a@ == b@),
{
    if a.len() != b.len() {
        return false;
    }
    let mut i: usize = 0;
    while i < a.len()
        invariant
            a@.len() == b@.len(),
            i <= a@.len(),
            forall|j: int| 0 <= j < i ==> a@[j] == b@[j],
        decreases a@.len() - i,
    {
        if a[i] != b[i] {
            return false;
        }
        i = i + 1;
    }
    assert(a@ =~= b@);
    true
}

/// Whether two sequences of code units are equal.
fn units_eq(a: &[u16], b: &[u16]) -> (r: bool)
    ensures
        r == (a@ == b@),
{
    if a.len() != b.len() {
        return false;
    }
    let mut i: usize = 0;
    while i < a.len()
        invariant
            a@.len() == b@.len(),
            i <= a@.len(),
            forall|j: int| 0 <= j < i ==> a@[j] == b@[j],
        decreases a@.len() - i,
    {
        if a[i] != b[i] {
            return false;
        }
        i = i + 1;
    }
    assert(a@ =~= b@);
    true
}

impl PartialEq for Expr {
    fn eq(&self, other: &Expr) -> (r: bool) {
        bytes_eq(self.0.as_slice(), other.0.as_slice())
    }
}

impl vstd::std_specs::cmp::PartialEqSpecImpl for Expr {
    open spec fn obeys_eq_spec() -> bool {
        true
    }

    open spec fn eq_spec(&self, other: &Expr) -> bool {
        self@ == other@
    }
}

impl PartialEq for StringToken {
    fn eq(&self, other: &StringToken) -> (r: bool) {
        match (self, other) {
            (StringToken::Text(a), StringToken::Text(b)) => units_eq(a.as_slice(), b.as_slice()),
            (StringToken::Text(_), _) => false,
            (_, StringToken::Text(_)) => false,
            (StringToken::Color(a), StringToken::Color(b)) => bytes_eq(
                a.0.as_slice(),
                b.0.as_slice(),
            ),
            (StringToken::Eval(a), StringToken::Eval(b)) => bytes_eq(
                a.0.as_slice(),
                b.0.as_slice(),
            ),
            (StringToken::FontSize(a), StringToken::FontSize(b)) => *a == *b,
            (StringToken::MarginTop(a), StringToken::MarginTop(b)) => *a == *b,
            (StringToken::MarginLeft(a), StringToken::MarginLeft(b)) => *a == *b,
            (StringToken::HardcodedValue(a), StringToken::HardcodedValue(b)) => *a == *b,
            (StringToken::Color(_), _) | (StringToken::Eval(_), _) | (StringToken::FontSize(_), _)
            | (StringToken::MarginTop(_), _) | (StringToken::MarginLeft(_), _) | (
                StringToken::HardcodedValue(_),
                _,
            ) => false,
            _ => self.opcode() == other.opcode(),
        }
    }
}

impl vstd::std_specs::cmp::PartialEqSpecImpl for StringToken {
    open spec fn obeys_eq_spec() -> bool {
        true
    }

    open spec fn eq_spec(&self, other: &StringToken) -> bool {
        self@ == other@
    }
}

} // verus!
