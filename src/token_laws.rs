use vstd::prelude::*;
use crate::codec::{
    TokenValue, PresentAction, Error, is_opcode, const_len_of, expr_token_len, expr_end, be16,
    be16_bytes, text_run, bare_token, u16_token, decode_at_spec, opcode_of, units_bytes,
    encode_spec, is_text_unit, token_wf, decode_stream, encode_all, lemma_expr_end_bounds,
};

verus! {

/// An expression keeps its end when other bytes surround it.
proof fn lemma_expr_end_shift(p: Seq<u8>, e: Seq<u8>, rest: Seq<u8>, i: int, k: int)
    requires
        0 <= i,
        expr_end(e, i) == Some(k),
    ensures
        expr_end(p + e + rest, p.len() + i) == Some(p.len() + k),
    decreases e.len() - i,
{
    let s = p + e + rest;
    let j = p.len() + i;
    assert(s[j] == e[i]);
    if e[i] != 0 {
        lemma_expr_end_shift(p, e, rest, i + expr_token_len(e[i]), k);
    }
}

/// A run of text units followed by an opcode reads back as the same units.
proof fn lemma_text_run_encoded(p: Seq<u8>, u: Seq<u16>, rest: Seq<u8>)
    requires
        forall|k: int| 0 <= k < u.len() ==> is_text_unit(#[trigger] u[k]),
        rest.len() > 0,
        is_opcode(rest[0]),
    ensures
        text_run(p + units_bytes(u) + rest, p.len() as int) == Some(u),
    decreases u.len(),
{
    let s = p + units_bytes(u) + rest;
    if u.len() == 0 {
        assert(units_bytes(u) =~= Seq::<u8>::empty());
        assert(s[p.len() as int] == rest[0]);
    } else {
        let c = u[0];
        let longer = p + be16_bytes(c);
        assert(is_text_unit(u[0]));
        assert(s =~= longer + units_bytes(u.drop_first()) + rest);
        assert forall|k: int| 0 <= k < u.drop_first().len() implies is_text_unit(
            #[trigger] u.drop_first()[k],
        ) by {
            assert(u.drop_first()[k] == u[k + 1]);
        }
        lemma_text_run_encoded(longer, u.drop_first(), rest);
        assert(s[p.len() as int] == (c as int / 256) as u8);
        assert(s[p.len() as int + 1] == (c as int % 256) as u8);
        assert(be16(s[p.len() as int], s[p.len() as int + 1]) == c);
        assert(seq![c] + u.drop_first() =~= u);
    }
}

/// Every token that a stream can hold decodes back from its encoding,
/// whatever follows it, provided that a text run is followed by an opcode.
pub proof fn lemma_decode_encode(t: TokenValue, rest: Seq<u8>)
    requires
        token_wf(t),
        t is Text ==> rest.len() > 0 && is_opcode(rest[0]),
    ensures
        decode_at_spec(encode_spec(t) + rest, 0) == Ok::<(TokenValue, int), Error>(
            (t, encode_spec(t).len() as int),
        ),
{
    let s = encode_spec(t) + rest;
    match t {
        TokenValue::Text(u) => {
            lemma_text_run_encoded(Seq::empty(), u, rest);
            assert(Seq::<u8>::empty() + units_bytes(u) + rest =~= s);
            lemma_text_run_encoded(Seq::empty(), u, seq![0u8]);
            assert(is_text_unit(u[0]));
            assert(s[0] == (u[0] as int / 256) as u8);
            lemma_units_bytes_len(u);
        },
        TokenValue::Color(e) => {
            lemma_expr_end_shift(seq![0x04u8], e, rest, 0, e.len() as int);
            assert(seq![0x04u8] + e + rest =~= s);
            assert(s.subrange(1, 1 + e.len() as int) =~= e);
        },
        TokenValue::Eval(e) => {
            lemma_expr_end_shift(seq![0x15u8], e, rest, 0, e.len() as int);
            assert(seq![0x15u8] + e + rest =~= s);
            assert(s.subrange(1, 1 + e.len() as int) =~= e);
        },
        TokenValue::FontSize(v) => {
            assert(be16(s[1], s[2]) == v);
        },
        TokenValue::MarginTop(v) => {
            assert(be16(s[1], s[2]) == v);
        },
        TokenValue::MarginLeft(v) => {
            assert(be16(s[1], s[2]) == v);
        },
        TokenValue::HardcodedValue(v) => {
            assert(be16(s[1], s[2]) == v);
        },
        _ => {
            assert(s[0] == opcode_of(t));
        },
    }
}

proof fn lemma_units_bytes_len(u: Seq<u16>)
    ensures
        units_bytes(u).len() == 2 * u.len(),
    decreases u.len(),
{
    if u.len() > 0 {
        lemma_units_bytes_len(u.drop_first());
    }
}


/// The units of a text run are the bytes that it spans.
proof fn lemma_text_run_bytes(s: Seq<u8>, i: int)
    requires
        text_run(s, i) is Some,
    ensures
        i + 2 * text_run(s, i)->0.len() <= s.len(),
        units_bytes(text_run(s, i)->0) == s.subrange(i, i + 2 * text_run(s, i)->0.len()),
    decreases s.len() - i,
{
    let u = text_run(s, i)->0;
    if i < s.len() && is_opcode(s[i]) {
        assert(units_bytes(u) =~= s.subrange(i, i));
    } else {
        lemma_text_run_bytes(s, i + 2);
        let r = text_run(s, i + 2)->0;
        assert(u.drop_first() =~= r);
        assert(be16_bytes(be16(s[i], s[i + 1])) =~= s.subrange(i, i + 2));
        assert(units_bytes(u) =~= s.subrange(i, i + 2 * u.len()));
    }
}

/// A decoded token is exactly the bytes it was decoded from.
pub proof fn lemma_encode_decoded(s: Seq<u8>, i: int)
    requires
        decode_at_spec(s, i) is Ok,
    ensures
        ({
            let (t, e) = decode_at_spec(s, i)->Ok_0;
            i < e <= s.len() && encode_spec(t) == s.subrange(i, e)
        }),
{
    let (t, e) = decode_at_spec(s, i)->Ok_0;
    let b = s[i];
    if !is_opcode(b) {
        lemma_text_run_bytes(s, i);
        assert(text_run(s, i)->0.len() > 0);
    } else if bare_token(b) is Some {
        assert(s.subrange(i, i + 1) =~= seq![b]);
    } else if b == 0x04 || b == 0x15 {
        lemma_expr_end_bounds(s, i + 1);
        assert(encode_spec(t) =~= s.subrange(i, e));
    } else {
        assert(be16_bytes(be16(s[i + 1], s[i + 2])) =~= s.subrange(i + 1, i + 3));
        assert(encode_spec(t) =~= s.subrange(i, e));
    }
}

/// Re-encoding a decoded stream gives back its bytes up to the point where
/// decoding stopped, which is the end of the bytes or a terminator.
pub proof fn lemma_stream_round_trip(s: Seq<u8>, i: int)
    requires
        0 <= i <= s.len(),
        decode_stream(s, i) is Ok,
    ensures
        ({
            let n = encode_all(decode_stream(s, i)->Ok_0).len();
            &&& i + n <= s.len()
            &&& encode_all(decode_stream(s, i)->Ok_0) == s.subrange(i, i + n)
            &&& (i + n == s.len() || s[i + n] == 0xFF)
        }),
    decreases s.len() - i,
{
    let ts = decode_stream(s, i)->Ok_0;
    if i >= s.len() {
        assert(encode_all(ts) =~= Seq::<u8>::empty());
    } else {
        lemma_encode_decoded(s, i);
        let (t, e) = decode_at_spec(s, i)->Ok_0;
        if t is Terminator {
            assert(encode_all(ts) =~= Seq::<u8>::empty());
            assert(encode_spec(t) == s.subrange(i, e));
            assert(s[i] == encode_spec(t)[0]);
        } else {
            lemma_stream_round_trip(s, e);
            let rs = decode_stream(s, e)->Ok_0;
            assert(ts.drop_first() =~= rs);
            assert(encode_all(ts) =~= s.subrange(i, i + encode_all(ts).len()));
        }
    }
}

} // verus!
