use vstd::prelude::*;
use vstd::string::StrSliceExecFns;
use crate::text::{
    EncodingMaps, MissingPuaChars, copy_chars, table_view, table_keys, missing_keys,
};

verus! {

/// Per-game configuration: names, character encoding and the characters
/// that are never folded.
pub struct GameDef {
    pub full_name: String,
    pub aliases: Vec<String>,
    pub compound_chars: Vec<(char, Vec<char>)>,
    pub encoding_maps: EncodingMaps,
    pub fullwidth_blocklist: Vec<char>,
}

/// Value of a hexadecimal digit, or -1 for another character.
pub open spec fn hex_digit_value(c: char) -> int {
    if '0' <= c <= '9' {
        c as int - '0' as int
    } else if 'a' <= c <= 'f' {
        c as int - 'a' as int + 10
    } else if 'A' <= c <= 'F' {
        c as int - 'A' as int + 10
    } else {
        -1
    }
}

/// Whether every character of `s[i..j]` is a hexadecimal digit.
pub open spec fn all_hex(s: Seq<char>, i: int, j: int) -> bool {
    forall|k: int| i <= k < j ==> hex_digit_value(#[trigger] s[k]) >= 0
}

/// The number that a string of hexadecimal digits spells.
pub open spec fn hex_value(s: Seq<char>) -> int
    decreases s.len(),
{
    if s.len() == 0 {
        0
    } else {
        hex_value(s.drop_last()) * 16 + hex_digit_value(s.last())
    }
}

/// A Unicode scalar value.
pub open spec fn is_scalar(v: int) -> bool {
    0 <= v < 0x110000 && !(0xD800 <= v < 0xE000)
}

/// End of the run of characters from `i` that holds neither `-` nor `]`.
pub open spec fn run_end(s: Seq<char>, i: int) -> int
    decreases s.len() - i,
{
    if i < 0 || i >= s.len() || s[i] == '-' || s[i] == ']' {
        i
    } else {
        run_end(s, i + 1)
    }
}

/// A code point written in hexadecimal from `i`, up to the next `-` or
/// `]`: its value and where it ends.
pub open spec fn codepoint_at(s: Seq<char>, i: int) -> Option<(int, int)> {
    let j = run_end(s, i);
    if 0 <= i < j && all_hex(s, i, j) && is_scalar(hex_value(s.subrange(i, j))) {
        Some((hex_value(s.subrange(i, j)), j))
    } else {
        None
    }
}

/// Where the text that starts at `i` ends: at the first `\n`, at the first
/// `\r` that a `\n` follows, or at the end; `None` at a lone `\r`.
pub open spec fn line_end(s: Seq<char>, i: int) -> Option<int>
    decreases s.len() - i,
{
    if i < 0 || i >= s.len() {
        Some(s.len() as int)
    } else if s[i] == '\n' {
        Some(i)
    } else if s[i] == '\r' {
        if i + 1 < s.len() && s[i + 1] == '\n' {
            Some(i)
        } else {
            None
        }
    } else {
        line_end(s, i + 1)
    }
}

/// One mapping line from `i`, `[FIRST]=text` or `[FIRST-LAST]=text`: the
/// first and last code points and the span of the text.
pub open spec fn pua_line(s: Seq<char>, i: int) -> Option<(int, int, int, int)> {
    if 0 <= i < s.len() && s[i] == '[' && codepoint_at(s, i + 1) is Some {
        let (a, j) = codepoint_at(s, i + 1)->0;
        let range: Option<(int, int)> = if j < s.len() && s[j] == ']' {
            Some((a, j))
        } else if j < s.len() && s[j] == '-' && codepoint_at(s, j + 1) is Some {
            let (b, k) = codepoint_at(s, j + 1)->0;
            if k < s.len() && s[k] == ']' {
                Some((b, k))
            } else {
                None
            }
        } else {
            None
        };
        match range {
            Some((b, close)) => if close + 1 < s.len() && s[close + 1] == '=' && line_end(
                s,
                close + 2,
            ) is Some {
                Some((a, b, close + 2, line_end(s, close + 2)->0))
            } else {
                None
            },
            None => None,
        }
    } else {
        None
    }
}

/// Position after a line ending (`\n` or `\r\n`) at `i`.
pub open spec fn line_sep(s: Seq<char>, i: int) -> Option<int> {
    if 0 <= i < s.len() && s[i] == '\n' {
        Some(i + 1)
    } else if 0 <= i && i + 1 < s.len() && s[i] == '\r' && s[i + 1] == '\n' {
        Some(i + 2)
    } else {
        None
    }
}

/// The mapping lines from `i` up to the first that does not parse: first
/// and last code points and the text of each.
pub open spec fn mapping_list(s: Seq<char>, i: int) -> Seq<(int, int, Seq<char>)>
    decreases s.len() - i,
{
    match pua_line(s, i) {
        None => Seq::empty(),
        Some((a, b, ts, te)) => seq![(a, b, s.subrange(ts, te))] + match line_sep(s, te) {
            Some(k) => if i < k <= s.len() {
                mapping_list(s, k)
            } else {
                Seq::empty()
            },
            None => Seq::empty(),
        },
    }
}

/// The code points of `a..=b`, surrogates skipped, each with `t`.
pub open spec fn range_entries(a: int, b: int, t: Seq<char>) -> Seq<(int, Seq<char>)>
    decreases b + 1 - a,
{
    if a > b {
        Seq::empty()
    } else if 0xD800 <= a < 0xE000 {
        range_entries(a + 1, b, t)
    } else {
        seq![(a, t)] + range_entries(a + 1, b, t)
    }
}

/// Every code point of every mapping, in order, with its text.
pub open spec fn expand_mappings(ms: Seq<(int, int, Seq<char>)>) -> Seq<(int, Seq<char>)>
    decreases ms.len(),
{
    if ms.len() == 0 {
        Seq::empty()
    } else {
        expand_mappings(ms.drop_last()) + range_entries(ms.last().0, ms.last().1, ms.last().2)
    }
}

/// Relies on `char::from_u32`: the character whose code point is `v`, which
/// exists exactly for Unicode scalar values.
#[verifier::external_body]
fn char_from_u32(v: u32) -> (r: Option<char>)
    ensures
        r is Some <==> is_scalar(v as int),
        r matches Some(c) ==> c as u32 == v,
{
    char::from_u32(v)
}

/// The characters of `s`.
pub fn str_chars(s: &str) -> (r: Vec<char>)
    ensures
        r@ == s@,
{
    let n = s.unicode_len();
    let mut r: Vec<char> = Vec::new();
    let mut i: usize = 0;
    while i < n
        invariant
            n == s@.len(),
            i <= n,
            r@ == s@.take(i as int),
        decreases n - i,
    {
        r.push(s.get_char(i));
        assert(s@.take(i as int + 1) =~= s@.take(i as int).push(s@[i as int]));
        i = i + 1;
    }
    assert(s@.take(n as int) =~= s@);
    r
}

/// Value of a hexadecimal digit.
fn hex_digit(c: char) -> (r: Option<u32>)
    ensures
        match r {
            Some(d) => hex_digit_value(c) == d as int && d < 16,
            None => hex_digit_value(c) < 0,
        },
{
    if '0' <= c && c <= '9' {
        Some(c as u32 - '0' as u32)
    } else if 'a' <= c && c <= 'f' {
        Some(c as u32 - 'a' as u32 + 10)
    } else if 'A' <= c && c <= 'F' {
        Some(c as u32 - 'A' as u32 + 10)
    } else {
        None
    }
}

/// Parses the code point written in hexadecimal from `i`.
fn parse_codepoint(s: &Vec<char>, i: usize) -> (r: Option<(char, usize)>)
    requires
        i <= s@.len(),
    ensures
        match codepoint_at(s@, i as int) {
            Some((v, j)) => r matches Some((c, e)) && c as u32 == v && e == j,
            None => r is None,
        },
{
    let mut j: usize = i;
    let mut v: u32 = 0;
    let mut ok = true;
    let mut big = false;
    while j < s.len() && s[j] != '-' && s[j] != ']'
        invariant
            i <= j <= s@.len(),
            run_end(s@, i as int) == run_end(s@, j as int),
            ok == all_hex(s@, i as int, j as int),
            ok ==> hex_value(s@.subrange(i as int, j as int)) >= 0,
            ok && !big ==> v == hex_value(s@.subrange(i as int, j as int)) && v < 0x110000,
            ok && big ==> hex_value(s@.subrange(i as int, j as int)) >= 0x110000,
        decreases s@.len() - j,
    {
        proof {
            assert(s@.subrange(i as int, j as int + 1).drop_last() =~= s@.subrange(
                i as int,
                j as int,
            ));
        }
        match hex_digit(s[j]) {
            Some(d) => {
                if ok && !big {
                    if v >= 0x11000 {
                        big = true;
                    } else {
                        v = v * 16 + d;
                        if v >= 0x110000 {
                            big = true;
                        }
                    }
                }
            },
            None => {
                ok = false;
            },
        }
        j = j + 1;
    }
    if j > i && ok && !big {
        match char_from_u32(v) {
            Some(c) => Some((c, j)),
            None => None,
        }
    } else {
        None
    }
}

/// Where the text from `i` ends (see `line_end`).
fn find_line_end(s: &Vec<char>, i: usize) -> (r: Option<usize>)
    requires
        i <= s@.len(),
    ensures
        match r {
            Some(e) => line_end(s@, i as int) == Some(e as int),
            None => line_end(s@, i as int) is None,
        },
        r matches Some(e) ==> i <= e <= s@.len(),
{
    let mut k: usize = i;
    while k < s.len()
        invariant
            i <= k <= s@.len(),
            line_end(s@, i as int) == line_end(s@, k as int),
        decreases s@.len() - k,
    {
        if s[k] == '\n' {
            return Some(k);
        }
        if s[k] == '\r' {
            if k + 1 < s.len() && s[k + 1] == '\n' {
                return Some(k);
            }
            return None;
        }
        k = k + 1;
    }
    Some(s.len())
}

/// One line of a compound-character table: a range of code points and the
/// text that each of them stands for.
#[derive(Debug, Clone, PartialEq, Eq)]
pub struct PuaMapping {
    pub first: char,
    pub last: char,
    pub ch: Vec<char>,
}

/// Parses one mapping line from `i`: where its text ends, and the mapping.
fn parse_mapping_at(s: &Vec<char>, i: usize) -> (r: Option<(usize, PuaMapping)>)
    requires
        i <= s@.len(),
    ensures
        match pua_line(s@, i as int) {
            Some((a, b, ts, te)) => r matches Some((e, m)) && e == te && m.first as u32 == a
                && m.last as u32 == b && m.ch@ == s@.subrange(ts, te) && i < e <= s@.len(),
            None => r is None,
        },
{
    if i >= s.len() || s[i] != '[' {
        return None;
    }
    let (first, j) = match parse_codepoint(s, i + 1) {
        Some(p) => p,
        None => {
            return None;
        },
    };
    proof {
        reveal_with_fuel(run_end, 1);
    }
    let (last, close) = if j < s.len() && s[j] == ']' {
        (first, j)
    } else if j < s.len() && s[j] == '-' {
        match parse_codepoint(s, j + 1) {
            Some((b, k)) => {
                if k < s.len() && s[k] == ']' {
                    (b, k)
                } else {
                    return None;
                }
            },
            None => {
                return None;
            },
        }
    } else {
        return None;
    };
    if !(close + 1 < s.len() && s[close + 1] == '=') {
        return None;
    }
    let te = match find_line_end(s, close + 2) {
        Some(e) => e,
        None => {
            return None;
        },
    };
    let mut text: Vec<char> = Vec::new();
    let mut k: usize = close + 2;
    while k < te
        invariant
            close + 2 <= k <= te <= s@.len(),
            text@ == s@.subrange(close + 2, k as int),
        decreases te - k,
    {
        text.push(s[k]);
        assert(s@.subrange(close + 2, k as int + 1) =~= s@.subrange(close + 2, k as int).push(
            s@[k as int],
        ));
        k = k + 1;
    }
    Some((te, PuaMapping { first, last, ch: text }))
}

impl PuaMapping {
    pub fn new(first: char, last: char, ch: &str) -> (r: PuaMapping)
        ensures
            r.first == first,
            r.last == last,
            r.ch@ == ch@,
    {
        PuaMapping { first, last, ch: str_chars(ch) }
    }

    /// Parses a mapping line at the start of `i`, `[E01C]=text` or
    /// `[E01C-E01F]=text`: the number of characters read and the mapping.
    pub fn parse(i: &str) -> (r: Option<(usize, PuaMapping)>)
        ensures
            match pua_line(i@, 0) {
                Some((a, b, ts, te)) => r matches Some((e, m)) && e == te && m.first as u32 == a
                    && m.last as u32 == b && m.ch@ == i@.subrange(ts, te),
                None => r is None,
            },
    {
        let s = str_chars(i);
        parse_mapping_at(&s, 0)
    }
}

/// Code point and text of each entry of a compound table.
pub open spec fn entries_view(t: Seq<(char, Seq<char>)>) -> Seq<(int, Seq<char>)> {
    t.map_values(|e: (char, Seq<char>)| (e.0 as u32 as int, e.1))
}

/// Appends an entry for every code point of `first..=last` but surrogates,
/// each with `text`.
fn push_range(out: &mut Vec<(char, Vec<char>)>, first: char, last: char, text: &Vec<char>)
    ensures
        entries_view(table_view(final(out)@)) == entries_view(table_view(old(out)@))
            + range_entries(first as u32 as int, last as u32 as int, text@),
{
    let ghost target = entries_view(table_view(old(out)@)) + range_entries(
        first as u32 as int,
        last as u32 as int,
        text@,
    );
    let a = first as u32;
    let b = last as u32;
    if a > b {
        assert(entries_view(table_view(out@)) =~= target);
        return ;
    }
    let mut cp: u32 = a;
    while cp <= b
        invariant
            a <= cp <= b + 1,
            b < 0x110000,
            target == entries_view(table_view(old(out)@)) + range_entries(
                a as int,
                b as int,
                text@,
            ),
            entries_view(table_view(out@)) + range_entries(cp as int, b as int, text@) == target,
        decreases b + 1 - cp,
    {
        if 0xD800 <= cp && cp < 0xE000 {
        } else {
            match char_from_u32(cp) {
                Some(c) => {
                    let ghost before = entries_view(table_view(out@));
                    out.push((c, copy_chars(text)));
                    assert(entries_view(table_view(out@)) =~= before + seq![(cp as int, text@)]);
                    assert(before + seq![(cp as int, text@)] + range_entries(
                        cp as int + 1,
                        b as int,
                        text@,
                    ) =~= before + range_entries(cp as int, b as int, text@));
                },
                None => {},
            }
        }
        cp = cp + 1;
    }
    assert(range_entries(cp as int, b as int, text@) =~= Seq::<(int, Seq<char>)>::empty());
    assert(entries_view(table_view(out@)) =~= target);
}

/// Parses a compound-character table: the mapping lines, one per line, up
/// to the first that does not parse, with every code point of each range
/// given the line's text.
pub fn parse_compound_ch_map(i: &str) -> (r: Vec<(char, Vec<char>)>)
    ensures
        entries_view(table_view(r@)) == expand_mappings(mapping_list(i@, 0)),
{
    let s = str_chars(i);
    let mut out: Vec<(char, Vec<char>)> = Vec::new();
    let mut pos: usize = 0;
    let ghost done: Seq<(int, int, Seq<char>)> = Seq::empty();
    assert(entries_view(table_view(out@)) =~= expand_mappings(done));
    assert(mapping_list(s@, 0) =~= done + mapping_list(s@, 0));
    loop
        invariant
            s@ == i@,
            pos <= s@.len(),
            mapping_list(s@, 0) == done + mapping_list(s@, pos as int),
            entries_view(table_view(out@)) == expand_mappings(done),
        decreases s@.len() - pos,
    {
        match parse_mapping_at(&s, pos) {
            None => {
                assert(done + mapping_list(s@, pos as int) =~= done);
                return out;
            },
            Some((te, m)) => {
                let ghost entry = (m.first as u32 as int, m.last as u32 as int, m.ch@);
                push_range(&mut out, m.first, m.last, &m.ch);
                proof {
                    assert(done.push(entry).drop_last() =~= done);
                    done = done.push(entry);
                }
                let next = if te < s.len() && s[te] == '\n' {
                    te + 1
                } else if s.len() - te > 1 && s[te] == '\r' && s[te + 1] == '\n' {
                    te + 2
                } else {
                    assert(mapping_list(s@, 0) =~= done);
                    return out;
                };
                assert(mapping_list(s@, pos as int) =~= seq![entry] + mapping_list(s@, next as int));
                assert(mapping_list(s@, 0) =~= done + mapping_list(s@, next as int));
                pos = next;
            },
        }
    }
}

impl GameDef {
    /// Builds a game's configuration from its character set (one character
    /// per code unit, in order) and its compound-character table (see
    /// `parse_compound_ch_map`); fails, naming them, when compound
    /// characters are missing from the character set.
    pub fn new(
        full_name: String,
        aliases: Vec<String>,
        charset: &str,
        compound_chars: &str,
        fullwidth_blocklist: Vec<char>,
    ) -> (r: Result<GameDef, MissingPuaChars>)
        ensures
            match r {
                Ok(g) => g.full_name == full_name && g.aliases == aliases
                    && g.fullwidth_blocklist == fullwidth_blocklist && g.encoding_maps@.0
                    == charset@ && g.encoding_maps@.1 == table_view(g.compound_chars@)
                    && entries_view(table_view(g.compound_chars@)) == expand_mappings(
                    mapping_list(compound_chars@, 0),
                ) && missing_keys(charset@, table_keys(table_view(g.compound_chars@))).len()
                    == 0,
                Err(e) => exists|t: Seq<(char, Vec<char>)>|
                    entries_view(table_view(t)) == expand_mappings(
                        mapping_list(compound_chars@, 0),
                    ) && e.missing_pua_chars@ == missing_keys(charset@, table_keys(table_view(t)))
                        && e.missing_pua_chars@.len() > 0,
            },
    {
        let chars = str_chars(charset);
        let table = parse_compound_ch_map(compound_chars);
        match EncodingMaps::new(&chars, &table) {
            Ok(encoding_maps) => Ok(
                GameDef { full_name, aliases, compound_chars: table, encoding_maps, fullwidth_blocklist },
            ),
            Err(e) => Err(e),
        }
    }

    /// The character set, in code-unit order.
    pub fn charset(&self) -> (r: &[char])
        ensures
            r@ == self.encoding_maps@.0,
    {
        self.encoding_maps.charset()
    }
}

/// Whether two strings hold the same characters.
fn str_eq(a: &str, b: &str) -> (r: bool)
    ensures
        r == (a@ == b@),
{
    let n = a.unicode_len();
    if n != b.unicode_len() {
        return false;
    }
    let mut i: usize = 0;
    while i < n
        invariant
            n == a@.len(),
            n == b@.len(),
            i <= n,
            forall|j: int| 0 <= j < i ==> a@[j] == b@[j],
        decreases n - i,
    {
        if a.get_char(i) != b.get_char(i) {
            return false;
        }
        i = i + 1;
    }
    assert(a@ =~= b@);
    true
}

/// Whether `def` has the alias `alias`.
pub open spec fn has_alias(def: GameDef, alias: Seq<char>) -> bool {
    exists|k: int| 0 <= k < def.aliases@.len() && (#[trigger] def.aliases@[k])@ == alias
}

/// The first definition with the alias `alias`.
pub fn get_by_alias<'a>(defs: &'a [GameDef], alias: &str) -> (r: Option<&'a GameDef>)
    ensures
        match r {
            Some(d) => exists|i: int|
                0 <= i < defs@.len() && *d == defs@[i] && has_alias(defs@[i], alias@) && forall|
                    j: int,
                | 0 <= j < i ==> !has_alias(#[trigger] defs@[j], alias@),
            None => forall|j: int| 0 <= j < defs@.len() ==> !has_alias(#[trigger] defs@[j], alias@),
        },
{
    let mut i: usize = 0;
    while i < defs.len()
        invariant
            i <= defs@.len(),
            forall|j: int| 0 <= j < i ==> !has_alias(#[trigger] defs@[j], alias@),
        decreases defs@.len() - i,
    {
        let def = &defs[i];
        let mut k: usize = 0;
        while k < def.aliases.len()
            invariant
                k <= def.aliases@.len(),
                i < defs@.len(),
                *def == defs@[i as int],
                forall|j: int| 0 <= j < i ==> !has_alias(#[trigger] defs@[j], alias@),
                forall|m: int| 0 <= m < k ==> (#[trigger] def.aliases@[m])@ != alias@,
            decreases def.aliases@.len() - k,
        {
            if str_eq(def.aliases[k].as_str(), alias) {
                assert(def.aliases@[k as int]@ == alias@);
                assert(has_alias(defs@[i as int], alias@));
                return Some(def);
            }
            k = k + 1;
        }
        i = i + 1;
    }
    None
}

} // verus!
