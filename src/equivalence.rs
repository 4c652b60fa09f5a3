use vstd::prelude::*;
use crate::codec::{StringToken, TokenValue, Sc3String, encode_spec};
use crate::gamedef::GameDef;
use crate::text::{
    EncodingError, decode_str, decode_str_spec, encode_chars_spec, fold_spec, to_halfwidth,
};

verus! {

/// One segment of a line of the human-readable text: a run of text, a
/// command that names a token, or a command that names none.
#[derive(Debug, Clone)]
pub enum TextSegment {
    Text(Vec<char>),
    Command(StringToken),
    UnknownCommand,
}

/// Why a text segment cannot become a token.
#[derive(Debug, Clone, Copy, PartialEq, Eq, Structural)]
pub enum SegmentError {
    Encoding(EncodingError),
    UnknownCommand,
}

/// Why the lines of a script and of its text cannot be paired up.
#[derive(Debug, Clone, Copy, PartialEq, Eq, Structural)]
pub enum ReplaceError {
    /// The text has another number of lines than the script has slots.
    LineCountMismatch,
    /// A script line's text could not be decoded (line index, error).
    Script(usize, EncodingError),
    /// A text line's segment could not become a token (line index, error).
    Text(usize, SegmentError),
}

/// The token that a segment stands for.
pub open spec fn segment_token(g: GameDef, seg: TextSegment) -> Result<TokenValue, SegmentError> {
    match seg {
        TextSegment::Text(t) => match encode_chars_spec(g.encoding_maps@.0, t@) {
            Ok(codes) => Ok(TokenValue::Text(codes)),
            Err(c) => Err(SegmentError::Encoding(EncodingError::UnknownChar(c))),
        },
        TextSegment::Command(tk) => Ok(tk@),
        TextSegment::UnknownCommand => Err(SegmentError::UnknownCommand),
    }
}

/// Every character of `s` folded (see `fold_fullwidth`).
pub open spec fn fold_all(s: Seq<char>, blocklist: Seq<char>) -> Seq<char> {
    s.map_values(|c: char| fold_spec(c, blocklist))
}

/// Whether a script token and a text segment mean the same: two texts are
/// compared as decoded characters, folded on both sides when
/// `width_insensitive`; otherwise the segment's token must equal the
/// script's.
pub open spec fn equivalent_spec(
    g: GameDef,
    scr: TokenValue,
    seg: TextSegment,
    width_insensitive: bool,
) -> Result<bool, EncodingError> {
    match (scr, seg) {
        (TokenValue::Text(codes), TextSegment::Text(t)) => match decode_str_spec(
            g.encoding_maps@.0,
            g.encoding_maps@.1,
            g.fullwidth_blocklist@,
            !width_insensitive,
            codes,
        ) {
            Ok(d) => Ok(
                if width_insensitive {
                    d == fold_all(t@, g.fullwidth_blocklist@)
                } else {
                    d == t@
                },
            ),
            Err(code) => Err(EncodingError::UnknownCode(code)),
        },
        _ => Ok(
            match segment_token(g, seg) {
                Ok(t) => t == scr,
                Err(_) => false,
            },
        ),
    }
}

/// Whether two character sequences are equal.
fn chars_eq(a: &Vec<char>, b: &Vec<char>) -> (r: bool)
    ensures
        r == (a@ == b@),
{
    if a.len() != b.len() {
        return false;
    }
    let mut i: usize = 0;
    while i < a.len()
        invariant
            a@.len() == b@.len(),
            i <= a@.len(),
            forall|j: int| 0 <= j < i ==> a@[j] == b@[j],
        decreases a@.len() - i,
    {
        if a[i] != b[i] {
            return false;
        }
        i = i + 1;
    }
    assert(a@ =~= b@);
    true
}

impl TextSegment {
    /// The token that this segment stands for.
    pub fn to_token(&self, gamedef: &GameDef) -> (r: Result<StringToken, SegmentError>)
        ensures
            match r {
                Ok(t) => segment_token(*gamedef, *self) == Ok::<TokenValue, SegmentError>(t@),
                Err(e) => segment_token(*gamedef, *self) == Err::<TokenValue, SegmentError>(e),
            },
    {
        match self {
            TextSegment::Text(t) => match gamedef.encoding_maps.encode_chars(t) {
                Ok(codes) => Ok(StringToken::Text(codes)),
                Err(e) => Err(SegmentError::Encoding(e)),
            },
            TextSegment::Command(tk) => Ok(copy_token(tk)),
            TextSegment::UnknownCommand => Err(SegmentError::UnknownCommand),
        }
    }
}

/// A copy of a token.
fn copy_token(t: &StringToken) -> (r: StringToken)
    ensures
        r@ == t@,
{
    match t {
        StringToken::Text(u) => StringToken::Text(vstd::slice::slice_to_vec(u.as_slice())),
        StringToken::Color(e) => StringToken::Color(
            crate::codec::Expr(vstd::slice::slice_to_vec(e.0.as_slice())),
        ),
        StringToken::Eval(e) => StringToken::Eval(
            crate::codec::Expr(vstd::slice::slice_to_vec(e.0.as_slice())),
        ),
        StringToken::LineBreak => StringToken::LineBreak,
        StringToken::NameStart => StringToken::NameStart,
        StringToken::LineStart => StringToken::LineStart,
        StringToken::Present(a) => StringToken::Present(*a),
        StringToken::RubyBaseStart => StringToken::RubyBaseStart,
        StringToken::RubyTextStart => StringToken::RubyTextStart,
        StringToken::RubyTextEnd => StringToken::RubyTextEnd,
        StringToken::FontSize(v) => StringToken::FontSize(*v),
        StringToken::Parallel => StringToken::Parallel,
        StringToken::Center => StringToken::Center,
        StringToken::MarginTop(v) => StringToken::MarginTop(*v),
        StringToken::MarginLeft(v) => StringToken::MarginLeft(*v),
        StringToken::HardcodedValue(v) => StringToken::HardcodedValue(*v),
        StringToken::AutoForward => StringToken::AutoForward,
        StringToken::AutoForward1A => StringToken::AutoForward1A,
        StringToken::RubyCenterPerChar => StringToken::RubyCenterPerChar,
        StringToken::Terminator => StringToken::Terminator,
    }
}

/// Whether a script token and a text segment mean the same (see
/// `equivalent_spec`).
pub fn equivalent(
    scr_tk: &StringToken,
    txt_seg: &TextSegment,
    gamedef: &GameDef,
    width_insensitive: bool,
) -> (r: Result<bool, EncodingError>)
    ensures
        r == equivalent_spec(*gamedef, scr_tk@, *txt_seg, width_insensitive),
{
    if let TextSegment::Text(txt) = txt_seg {
        if let StringToken::Text(scr) = scr_tk {
            let decoded = decode_str(scr.as_slice(), gamedef, !width_insensitive)?;
            if width_insensitive {
                let folded = to_halfwidth(txt, &gamedef.fullwidth_blocklist);
                assert(folded@ =~= fold_all(txt@, gamedef.fullwidth_blocklist@));
                return Ok(chars_eq(&folded, &decoded));
            } else {
                return Ok(chars_eq(txt, &decoded));
            }
        }
    }
    Ok(
        match txt_seg.to_token(gamedef) {
            Ok(t) => t == *scr_tk,
            Err(_) => false,
        },
    )
}

/// Whether line `line` changed, comparing its script tokens and text
/// segments pairwise from position `k`: it changed at the first pair that
/// is not equivalent, or where one side runs out before the other (a
/// segment left over must still stand for a token).
pub open spec fn line_changed_spec(
    g: GameDef,
    scr: Seq<TokenValue>,
    segs: Seq<TextSegment>,
    wi: bool,
    line: usize,
    k: int,
) -> Result<bool, ReplaceError>
    decreases scr.len() + segs.len() - k,
{
    if k < 0 || (k >= scr.len() && k >= segs.len()) {
        Ok(false)
    } else if k < scr.len() && k < segs.len() {
        match equivalent_spec(g, scr[k], segs[k], wi) {
            Err(e) => Err(ReplaceError::Script(line, e)),
            Ok(false) => Ok(true),
            Ok(true) => line_changed_spec(g, scr, segs, wi, line, k + 1),
        }
    } else if k < scr.len() {
        Ok(true)
    } else {
        match segment_token(g, segs[k]) {
            Err(e) => Err(ReplaceError::Text(line, e)),
            Ok(_) => Ok(true),
        }
    }
}

/// The indices of the changed lines among the first `n`, or the first error.
pub open spec fn changed_lines_spec(
    g: GameDef,
    script: Seq<Seq<TokenValue>>,
    text: Seq<Seq<TextSegment>>,
    wi: bool,
    n: int,
) -> Result<Seq<usize>, ReplaceError>
    decreases n,
{
    if n <= 0 {
        Ok(Seq::empty())
    } else {
        match changed_lines_spec(g, script, text, wi, n - 1) {
            Err(e) => Err(e),
            Ok(c) => match line_changed_spec(g, script[n - 1], text[n - 1], wi, (n - 1) as usize, 0) {
                Err(e) => Err(e),
                Ok(b) => Ok(
                    if b {
                        c.push((n - 1) as usize)
                    } else {
                        c
                    },
                ),
            },
        }
    }
}

/// The values of the tokens of each script line.
pub open spec fn script_view(script: Seq<Vec<StringToken>>) -> Seq<Seq<TokenValue>> {
    script.map_values(|l: Vec<StringToken>| l@.map_values(|t: StringToken| t@))
}

/// The segments of each text line.
pub open spec fn text_view(text: Seq<Vec<TextSegment>>) -> Seq<Seq<TextSegment>> {
    text.map_values(|l: Vec<TextSegment>| l@)
}

/// Whether line `line` changed (see `line_changed_spec`).
fn line_changed(
    scr: &Vec<StringToken>,
    segs: &Vec<TextSegment>,
    gamedef: &GameDef,
    wi: bool,
    line: usize,
) -> (r: Result<bool, ReplaceError>)
    ensures
        r == line_changed_spec(
            *gamedef,
            scr@.map_values(|t: StringToken| t@),
            segs@,
            wi,
            line,
            0,
        ),
{
    let ghost sv = scr@.map_values(|t: StringToken| t@);
    let mut k: usize = 0;
    loop
        invariant
            sv == scr@.map_values(|t: StringToken| t@),
            line_changed_spec(*gamedef, sv, segs@, wi, line, 0) == line_changed_spec(
                *gamedef,
                sv,
                segs@,
                wi,
                line,
                k as int,
            ),
        decreases scr@.len() + segs@.len() - k,
    {
        if k >= scr.len() && k >= segs.len() {
            return Ok(false);
        }
        if k < scr.len() && k < segs.len() {
            match equivalent(&scr[k], &segs[k], gamedef, wi) {
                Err(e) => {
                    return Err(ReplaceError::Script(line, e));
                },
                Ok(false) => {
                    return Ok(true);
                },
                Ok(true) => {},
            }
        } else if k < scr.len() {
            return Ok(true);
        } else {
            match segs[k].to_token(gamedef) {
                Err(e) => {
                    return Err(ReplaceError::Text(line, e));
                },
                Ok(_) => {
                    return Ok(true);
                },
            }
        }
        k = k + 1;
    }
}

/// Pairs the script's lines with the text's lines: the indices of the lines
/// that changed, in order. Fails before comparing anything when the two
/// have different numbers of lines.
pub fn changed_lines(
    script: &Vec<Vec<StringToken>>,
    text: &Vec<Vec<TextSegment>>,
    gamedef: &GameDef,
    width_insensitive: bool,
) -> (r: Result<Vec<usize>, ReplaceError>)
    ensures
        script@.len() != text@.len() ==> r == Err::<Vec<usize>, ReplaceError>(
            ReplaceError::LineCountMismatch,
        ),
        script@.len() == text@.len() ==> match changed_lines_spec(
            *gamedef,
            script_view(script@),
            text_view(text@),
            width_insensitive,
            script@.len() as int,
        ) {
            Ok(c) => r matches Ok(v) && v@ == c,
            Err(e) => r == Err::<Vec<usize>, ReplaceError>(e),
        },
{
    if script.len() != text.len() {
        return Err(ReplaceError::LineCountMismatch);
    }
    let ghost sv = script_view(script@);
    let ghost tv = text_view(text@);
    let mut out: Vec<usize> = Vec::new();
    let mut i: usize = 0;
    while i < script.len()
        invariant
            sv == script_view(script@),
            tv == text_view(text@),
            script@.len() == text@.len(),
            i <= script@.len(),
            changed_lines_spec(*gamedef, sv, tv, width_insensitive, i as int) == Ok::<
                Seq<usize>,
                ReplaceError,
            >(out@),
        decreases script@.len() - i,
    {
        let changed = line_changed(&script[i], &text[i], gamedef, width_insensitive, i);
        match changed {
            Err(e) => {
                proof {
                    lemma_changed_lines_err(*gamedef, sv, tv, width_insensitive, i as int + 1, script@.len() as int);
                }
                return Err(e);
            },
            Ok(b) => {
                if b {
                    out.push(i);
                }
            },
        }
        i = i + 1;
    }
    Ok(out)
}

/// An error among the first `n` lines is the error of the first `m`.
proof fn lemma_changed_lines_err(
    g: GameDef,
    script: Seq<Seq<TokenValue>>,
    text: Seq<Seq<TextSegment>>,
    wi: bool,
    n: int,
    m: int,
)
    requires
        0 <= n <= m,
        changed_lines_spec(g, script, text, wi, n) is Err,
    ensures
        changed_lines_spec(g, script, text, wi, m) == changed_lines_spec(g, script, text, wi, n),
    decreases m - n,
{
    if n < m {
        lemma_changed_lines_err(g, script, text, wi, n, m - 1);
    }
}

/// The bytes of a text line as a script string: each segment's token
/// encoded in turn, then a terminator.
pub open spec fn line_bytes(g: GameDef, segs: Seq<TextSegment>) -> Result<Seq<u8>, SegmentError>
    decreases segs.len(),
{
    if segs.len() == 0 {
        Ok(seq![0xFFu8])
    } else {
        match line_bytes(g, segs.drop_last()) {
            Err(e) => Err(e),
            Ok(b) => match segment_token(g, segs.last()) {
                Err(e) => Err(e),
                Ok(t) => Ok(b.drop_last() + encode_spec(t) + seq![0xFFu8]),
            },
        }
    }
}

proof fn lemma_line_bytes_err(g: GameDef, segs: Seq<TextSegment>, n: int)
    requires
        0 <= n <= segs.len(),
        line_bytes(g, segs.take(n)) is Err,
    ensures
        line_bytes(g, segs) == line_bytes(g, segs.take(n)),
    decreases segs.len() - n,
{
    if n < segs.len() {
        assert(segs.take(n + 1).drop_last() =~= segs.take(n));
        lemma_line_bytes_err(g, segs, n + 1);
    } else {
        assert(segs.take(n) =~= segs);
    }
}

/// Encodes a text line as the bytes of a script string (see `line_bytes`).
pub fn encode_line(segs: &Vec<TextSegment>, gamedef: &GameDef) -> (r: Result<Sc3String, SegmentError>)
    ensures
        match line_bytes(*gamedef, segs@) {
            Ok(b) => r matches Ok(s) && s@ == b,
            Err(e) => r == Err::<Sc3String, SegmentError>(e),
        },
{
    let mut out: Vec<u8> = Vec::new();
    let mut i: usize = 0;
    assert(segs@.take(0) =~= Seq::<TextSegment>::empty());
    while i < segs.len()
        invariant
            i <= segs@.len(),
            line_bytes(*gamedef, segs@.take(i as int)) == Ok::<Seq<u8>, SegmentError>(
                out@.push(0xFF),
            ),
        decreases segs@.len() - i,
    {
        proof {
            assert(segs@.take(i as int + 1).drop_last() =~= segs@.take(i as int));
            assert(out@.push(0xFF).drop_last() =~= out@);
        }
        match segs[i].to_token(gamedef) {
            Err(e) => {
                proof {
                    lemma_line_bytes_err(*gamedef, segs@, i as int + 1);
                }
                return Err(e);
            },
            Ok(t) => {
                let ghost before = out@;
                t.encode(&mut out);
                assert(out@.push(0xFF) =~= before + encode_spec(t@) + seq![0xFFu8]);
            },
        }
        i = i + 1;
    }
    assert(segs@.take(segs@.len() as int) =~= segs@);
    out.push(0xFF);
    Ok(Sc3String(out))
}

} // verus!
