use vstd::prelude::*;
use crate::gamedef::GameDef;

verus! {

/// Code unit of the first character of a character set; each following
/// character takes the next unit.
pub const CHARSET_BASE: u16 = 0x8000;

/// The ideographic space, a fullwidth character that is never folded.
pub const FULLWIDTH_SPACE: char = '\u{3000}';

/// A fullwidth variant of a printable ASCII character.
pub open spec fn is_fullwidth(c: char) -> bool {
    0xFF01 <= c as u32 <= 0xFF5E
}

/// Folding of one character: a fullwidth ASCII variant that the blocklist
/// does not hold becomes its ASCII character (its code point less `0xFEE0`);
/// every other character stays.
pub open spec fn fold_spec(c: char, blocklist: Seq<char>) -> char {
    if is_fullwidth(c) && !blocklist.contains(c) {
        ((c as u32 - 0xFEE0) as u8) as char
    } else {
        c
    }
}

/// Whether `c` is a fullwidth variant of a printable ASCII character.
pub fn is_fullwidth_ch(c: char) -> (r: bool)
    ensures
        r == is_fullwidth(c),
{
    0xFF01 <= c as u32 && c as u32 <= 0xFF5E
}

/// The ASCII character of a fullwidth variant.
pub fn replace_fullwidth(c: char) -> (r: char)
    requires
        is_fullwidth(c),
    ensures
        r as u32 == c as u32 - 0xFEE0,
        r == ((c as u32 - 0xFEE0) as u8) as char,
{
    ((c as u32 - 0xFEE0) as u8) as char
}

/// Whether `c` occurs in `list`.
fn contains_char(list: &Vec<char>, c: char) -> (r: bool)
    ensures
        r == list@.contains(c),
{
    let mut i: usize = 0;
    while i < list.len()
        invariant
            i <= list@.len(),
            forall|j: int| 0 <= j < i ==> list@[j] != c,
        decreases list@.len() - i,
    {
        if list[i] == c {
            return true;
        }
        i = i + 1;
    }
    false
}

/// Folds a fullwidth ASCII variant to its ASCII character, unless the
/// blocklist holds it.
pub fn fold_fullwidth(c: char, blocklist: &Vec<char>) -> (r: char)
    ensures
        r == fold_spec(c, blocklist@),
{
    if is_fullwidth_ch(c) && !contains_char(blocklist, c) {
        replace_fullwidth(c)
    } else {
        c
    }
}

/// Folding leaves a character that is not a fullwidth variant as it is,
/// and folding twice is folding once.
pub proof fn lemma_fold_idempotent(c: char, d: char, blocklist: Seq<char>)
    requires
        d == fold_spec(c, blocklist),
    ensures
        !is_fullwidth(c) ==> fold_spec(c, blocklist) == c,
        fold_spec(d, blocklist) == fold_spec(c, blocklist),
{
}

/// Folds every character of `s` (see `fold_fullwidth`).
pub fn to_halfwidth(s: &Vec<char>, blocklist: &Vec<char>) -> (r: Vec<char>)
    ensures
        r@.len() == s@.len(),
        forall|i: int| 0 <= i < s@.len() ==> #[trigger] r@[i] == fold_spec(s@[i], blocklist@),
{
    let mut r: Vec<char> = Vec::new();
    let mut i: usize = 0;
    while i < s.len()
        invariant
            i <= s@.len(),
            r@.len() == i,
            forall|j: int| 0 <= j < i ==> #[trigger] r@[j] == fold_spec(s@[j], blocklist@),
        decreases s@.len() - i,
    {
        r.push(fold_fullwidth(s[i], blocklist));
        i = i + 1;
    }
    r
}

/// What one code unit of a text run stands for.
#[derive(Debug, Clone, PartialEq, Eq)]
pub enum Char {
    Regular(char),
    Compound(Vec<char>),
}

/// Compound characters of the table that are missing from the character set.
#[derive(Debug, Clone, PartialEq, Eq)]
pub struct MissingPuaChars {
    pub missing_pua_chars: Vec<char>,
}

/// A character not found in the character set, or a code unit outside it.
#[derive(Debug, Clone, Copy, PartialEq, Eq, Structural)]
pub enum EncodingError {
    UnknownCode(u16),
    UnknownChar(char),
}

/// The entries of a compound table as characters and texts.
pub open spec fn table_view(table: Seq<(char, Vec<char>)>) -> Seq<(char, Seq<char>)> {
    table.map_values(|e: (char, Vec<char>)| (e.0, e.1@))
}

/// The keys of a compound table, in order.
pub open spec fn table_keys(table: Seq<(char, Seq<char>)>) -> Seq<char> {
    table.map_values(|e: (char, Seq<char>)| e.0)
}

/// The keys of a compound table that the character set lacks, in order.
pub open spec fn missing_keys(charset: Seq<char>, keys: Seq<char>) -> Seq<char> {
    keys.filter(absent_from(charset))
}

/// Whether a character is missing from the character set.
pub open spec fn absent_from(charset: Seq<char>) -> spec_fn(char) -> bool {
    |c: char| !charset.contains(c)
}

/// A compound character that the character set lacks makes building the
/// maps fail, and is among the characters that the failure names.
pub proof fn lemma_missing_pua_named(charset: Seq<char>, table: Seq<(char, Seq<char>)>, i: int)
    requires
        0 <= i < table.len(),
        !charset.contains(table[i].0),
    ensures
        missing_keys(charset, table_keys(table)).contains(table[i].0),
        missing_keys(charset, table_keys(table)).len() > 0,
{
    let keys = table_keys(table);
    assert(keys[i] == table[i].0);
    keys.lemma_filter_contains(absent_from(charset), i);
}

/// The last entry of the table for `c`, if any.
pub open spec fn compound_of(table: Seq<(char, Seq<char>)>, c: char) -> Option<Seq<char>>
    decreases table.len(),
{
    if table.len() == 0 {
        None
    } else if table.last().0 == c {
        Some(table.last().1)
    } else {
        compound_of(table.drop_last(), c)
    }
}

/// The character set's character for code unit `code`, if it has one.
pub open spec fn charset_char(charset: Seq<char>, code: u16) -> Option<char> {
    if code >= CHARSET_BASE && code - CHARSET_BASE < charset.len() {
        Some(charset[code - CHARSET_BASE])
    } else {
        None
    }
}

/// The characters that code unit `code` decodes to: a compound's text, or
/// the character itself, folded unless `keep_fullwidth`.
pub open spec fn decode_code_spec(
    charset: Seq<char>,
    table: Seq<(char, Seq<char>)>,
    blocklist: Seq<char>,
    keep_fullwidth: bool,
    code: u16,
) -> Option<Seq<char>> {
    match charset_char(charset, code) {
        None => None,
        Some(c) => match compound_of(table, c) {
            Some(t) => Some(t),
            None => Some(seq![if keep_fullwidth { c } else { fold_spec(c, blocklist) }]),
        },
    }
}

/// The characters that a text run decodes to, or the first code unit that
/// the character set lacks.
pub open spec fn decode_str_spec(
    charset: Seq<char>,
    table: Seq<(char, Seq<char>)>,
    blocklist: Seq<char>,
    keep_fullwidth: bool,
    codes: Seq<u16>,
) -> Result<Seq<char>, u16>
    decreases codes.len(),
{
    if codes.len() == 0 {
        Ok(Seq::empty())
    } else {
        match decode_str_spec(charset, table, blocklist, keep_fullwidth, codes.drop_last()) {
            Err(e) => Err(e),
            Ok(prefix) => match decode_code_spec(
                charset,
                table,
                blocklist,
                keep_fullwidth,
                codes.last(),
            ) {
                Some(t) => Ok(prefix + t),
                None => Err(codes.last()),
            },
        }
    }
}

/// Lookup between the code units of a script's text and Unicode: the
/// character set, whose position gives each character its code unit, and
/// the compound characters, which stand for longer text.
#[derive(Debug, Clone)]
pub struct EncodingMaps {
    charset: Vec<char>,
    compound_chars: Vec<(char, Vec<char>)>,
}

impl View for EncodingMaps {
    type V = (Seq<char>, Seq<(char, Seq<char>)>);

    closed spec fn view(&self) -> (Seq<char>, Seq<(char, Seq<char>)>) {
        (self.charset@, table_view(self.compound_chars@))
    }
}

/// A copy of a vector of characters.
pub(crate) fn copy_chars(v: &Vec<char>) -> (r: Vec<char>)
    ensures
        r@ == v@,
{
    let mut r: Vec<char> = Vec::new();
    let mut i: usize = 0;
    while i < v.len()
        invariant
            i <= v@.len(),
            r@ == v@.take(i as int),
        decreases v@.len() - i,
    {
        r.push(v[i]);
        assert(v@.take(i as int + 1) =~= v@.take(i as int).push(v@[i as int]));
        i = i + 1;
    }
    assert(v@.take(v@.len() as int) =~= v@);
    r
}

/// Appends the characters of `src` to `dst`.
fn append_chars(dst: &mut Vec<char>, src: &Vec<char>)
    ensures
        final(dst)@ == old(dst)@ + src@,
{
    let mut i: usize = 0;
    while i < src.len()
        invariant
            i <= src@.len(),
            dst@ == old(dst)@ + src@.take(i as int),
        decreases src@.len() - i,
    {
        dst.push(src[i]);
        assert(src@.take(i as int + 1) =~= src@.take(i as int).push(src@[i as int]));
        i = i + 1;
    }
    assert(src@.take(src@.len() as int) =~= src@);
}

impl EncodingMaps {
    /// Builds the maps; fails, naming every one of them, when compound
    /// characters of the table are missing from the character set.
    pub fn new(charset: &Vec<char>, compound_chars: &Vec<(char, Vec<char>)>) -> (r: Result<
        EncodingMaps,
        MissingPuaChars,
    >)
        ensures
            match r {
                Ok(m) => m@.0 == charset@ && m@.1 == table_view(compound_chars@) && missing_keys(
                    charset@,
                    table_keys(table_view(compound_chars@)),
                ).len() == 0,
                Err(e) => e.missing_pua_chars@ == missing_keys(
                    charset@,
                    table_keys(table_view(compound_chars@)),
                ) && e.missing_pua_chars@.len() > 0,
            },
    {
        let ghost keys = table_keys(table_view(compound_chars@));
        let mut missing: Vec<char> = Vec::new();
        let mut i: usize = 0;
        while i < compound_chars.len()
            invariant
                keys == table_keys(table_view(compound_chars@)),
                i <= compound_chars@.len(),
                missing@ == missing_keys(charset@, keys.take(i as int)),
            decreases compound_chars@.len() - i,
        {
            let c = compound_chars[i].0;
            proof {
                assert(keys.take(i as int + 1) =~= keys.take(i as int).push(c));
                reveal(Seq::filter);
                assert(keys.take(i as int + 1).drop_last() =~= keys.take(i as int));
            }
            if !contains_char(charset, c) {
                missing.push(c);
            }
            i = i + 1;
        }
        assert(keys.take(keys.len() as int) =~= keys);
        if missing.len() > 0 {
            return Err(MissingPuaChars { missing_pua_chars: missing });
        }
        let mut table: Vec<(char, Vec<char>)> = Vec::new();
        let mut j: usize = 0;
        while j < compound_chars.len()
            invariant
                j <= compound_chars@.len(),
                table@.len() == j,
                forall|k: int|
                    0 <= k < j ==> (#[trigger] table@[k]).0 == compound_chars@[k].0
                        && table@[k].1@ == compound_chars@[k].1@,
            decreases compound_chars@.len() - j,
        {
            table.push((compound_chars[j].0, copy_chars(&compound_chars[j].1)));
            j = j + 1;
        }
        assert(table_view(table@) =~= table_view(compound_chars@));
        Ok(EncodingMaps { charset: copy_chars(charset), compound_chars: table })
    }
}

/// The first position of `c` in the character set that a code unit can
/// reach, if any.
pub open spec fn is_first_code(charset: Seq<char>, c: char, i: int) -> bool {
    &&& 0 <= i < charset.len()
    &&& i < 0x8000
    &&& charset[i] == c
    &&& forall|j: int| 0 <= j < i ==> charset[j] != c
}

impl EncodingMaps {
    /// The character set, in code-unit order.
    pub fn charset(&self) -> (r: &[char])
        ensures
            r@ == self@.0,
    {
        self.charset.as_slice()
    }

    /// The text of the compound character `c`, if the table has it (the
    /// last entry wins).
    fn compound(&self, c: char) -> (r: Option<&Vec<char>>)
        ensures
            match r {
                Some(t) => compound_of(self@.1, c) == Some(t@),
                None => compound_of(self@.1, c) is None,
            },
    {
        let mut i: usize = self.compound_chars.len();
        assert(self@.1.take(self@.1.len() as int) =~= self@.1);
        while i > 0
            invariant
                i <= self.compound_chars@.len(),
                compound_of(self@.1, c) == compound_of(self@.1.take(i as int), c),
            decreases i,
        {
            proof {
                assert(self@.1.take(i as int).drop_last() =~= self@.1.take(i as int - 1));
            }
            if self.compound_chars[i - 1].0 == c {
                return Some(&self.compound_chars[i - 1].1);
            }
            i = i - 1;
        }
        None
    }

    /// What code unit `code` stands for: a compound character's text, a
    /// regular character, or nothing when the character set lacks it.
    pub fn decode_char(&self, code: u16) -> (r: Option<Char>)
        ensures
            match r {
                Some(Char::Regular(c)) => charset_char(self@.0, code) == Some(c) && compound_of(
                    self@.1,
                    c,
                ) is None,
                Some(Char::Compound(t)) => charset_char(self@.0, code) is Some && compound_of(
                    self@.1,
                    charset_char(self@.0, code)->0,
                ) == Some(t@),
                None => charset_char(self@.0, code) is None,
            },
    {
        if code < CHARSET_BASE || (code - CHARSET_BASE) as usize >= self.charset.len() {
            return None;
        }
        let c = self.charset[(code - CHARSET_BASE) as usize];
        match self.compound(c) {
            Some(t) => Some(Char::Compound(copy_chars(t))),
            None => Some(Char::Regular(c)),
        }
    }

    /// The code unit of `c`: its first position in the character set.
    pub fn encode_char(&self, c: char) -> (r: Result<u16, EncodingError>)
        ensures
            match r {
                Ok(code) => code >= CHARSET_BASE && is_first_code(
                    self@.0,
                    c,
                    code - CHARSET_BASE,
                ),
                Err(e) => e == EncodingError::UnknownChar(c) && forall|i: int|
                    0 <= i < self@.0.len() && i < 0x8000 ==> self@.0[i] != c,
            },
    {
        let mut i: usize = 0;
        while i < self.charset.len() && i < 0x8000
            invariant
                i <= self@.0.len(),
                i <= 0x8000,
                forall|j: int| 0 <= j < i ==> self@.0[j] != c,
            decreases self@.0.len() - i,
        {
            if self.charset[i] == c {
                return Ok(CHARSET_BASE + i as u16);
            }
            i = i + 1;
        }
        Err(EncodingError::UnknownChar(c))
    }
}

/// Decodes a text run: each code unit becomes its compound character's text
/// or its character, folded (see `fold_fullwidth`) unless `keep_fullwidth`.
pub fn decode_str(text: &[u16], gamedef: &GameDef, keep_fullwidth: bool) -> (r: Result<
    Vec<char>,
    EncodingError,
>)
    ensures
        match decode_str_spec(
            gamedef.encoding_maps@.0,
            gamedef.encoding_maps@.1,
            gamedef.fullwidth_blocklist@,
            keep_fullwidth,
            text@,
        ) {
            Ok(s) => r matches Ok(v) && v@ == s,
            Err(code) => r == Err::<Vec<char>, EncodingError>(EncodingError::UnknownCode(code)),
        },
{
    let ghost cs = gamedef.encoding_maps@.0;
    let ghost tb = gamedef.encoding_maps@.1;
    let ghost bl = gamedef.fullwidth_blocklist@;
    let mut out: Vec<char> = Vec::new();
    let mut i: usize = 0;
    while i < text.len()
        invariant
            i <= text@.len(),
            cs == gamedef.encoding_maps@.0,
            tb == gamedef.encoding_maps@.1,
            bl == gamedef.fullwidth_blocklist@,
            decode_str_spec(cs, tb, bl, keep_fullwidth, text@.take(i as int)) == Ok::<
                Seq<char>,
                u16,
            >(out@),
        decreases text@.len() - i,
    {
        let code = text[i];
        proof {
            assert(text@.take(i as int + 1).drop_last() =~= text@.take(i as int));
        }
        match gamedef.encoding_maps.decode_char(code) {
            None => {
                proof {
                    lemma_decode_str_err(cs, tb, bl, keep_fullwidth, text@, i as int + 1);
                }
                return Err(EncodingError::UnknownCode(code));
            },
            Some(Char::Compound(t)) => {
                append_chars(&mut out, &t);
            },
            Some(Char::Regular(c)) => {
                let ghost before = out@;
                if keep_fullwidth {
                    out.push(c);
                } else {
                    out.push(fold_fullwidth(c, &gamedef.fullwidth_blocklist));
                }
                assert(out@ =~= before + seq![out@.last()]);
            },
        }
        i = i + 1;
    }
    assert(text@.take(text@.len() as int) =~= text@);
    Ok(out)
}

/// A decoding error of a prefix is the decoding error of the whole run.
proof fn lemma_decode_str_err(
    cs: Seq<char>,
    tb: Seq<(char, Seq<char>)>,
    bl: Seq<char>,
    keep: bool,
    codes: Seq<u16>,
    n: int,
)
    requires
        0 <= n <= codes.len(),
        decode_str_spec(cs, tb, bl, keep, codes.take(n)) is Err,
    ensures
        decode_str_spec(cs, tb, bl, keep, codes) == decode_str_spec(cs, tb, bl, keep, codes.take(n)),
    decreases codes.len() - n,
{
    if n < codes.len() {
        assert(codes.take(n + 1).drop_last() =~= codes.take(n));
        lemma_decode_str_err(cs, tb, bl, keep, codes, n + 1);
    } else {
        assert(codes.take(n) =~= codes);
    }
}

/// The first position of `c` in the character set from `i` on that a code
/// unit can reach.
pub open spec fn first_index(charset: Seq<char>, c: char, i: int) -> Option<int>
    decreases charset.len() - i,
{
    if i < 0 || i >= charset.len() || i >= 0x8000 {
        None
    } else if charset[i] == c {
        Some(i)
    } else {
        first_index(charset, c, i + 1)
    }
}

/// The code units of a text, or the first character that the character set
/// lacks.
pub open spec fn encode_chars_spec(charset: Seq<char>, s: Seq<char>) -> Result<Seq<u16>, char>
    decreases s.len(),
{
    if s.len() == 0 {
        Ok(Seq::empty())
    } else {
        match encode_chars_spec(charset, s.drop_last()) {
            Err(c) => Err(c),
            Ok(prefix) => match first_index(charset, s.last(), 0) {
                Some(i) => Ok(prefix.push((i + 0x8000) as u16)),
                None => Err(s.last()),
            },
        }
    }
}

proof fn lemma_first_index(charset: Seq<char>, c: char, i: int, k: int)
    requires
        0 <= i <= k,
        forall|j: int| i <= j < k ==> charset[j] != c,
    ensures
        first_index(charset, c, i) == first_index(charset, c, k),
    decreases k - i,
{
    if i < k {
        lemma_first_index(charset, c, i + 1, k);
    }
}

proof fn lemma_encode_chars_err(charset: Seq<char>, s: Seq<char>, n: int)
    requires
        0 <= n <= s.len(),
        encode_chars_spec(charset, s.take(n)) is Err,
    ensures
        encode_chars_spec(charset, s) == encode_chars_spec(charset, s.take(n)),
    decreases s.len() - n,
{
    if n < s.len() {
        assert(s.take(n + 1).drop_last() =~= s.take(n));
        lemma_encode_chars_err(charset, s, n + 1);
    } else {
        assert(s.take(n) =~= s);
    }
}

impl EncodingMaps {
    /// Encodes a text: each character becomes the code unit of its first
    /// position in the character set.
    pub fn encode_chars(&self, s: &Vec<char>) -> (r: Result<Vec<u16>, EncodingError>)
        ensures
            match encode_chars_spec(self@.0, s@) {
                Ok(codes) => r matches Ok(v) && v@ == codes,
                Err(c) => r == Err::<Vec<u16>, EncodingError>(EncodingError::UnknownChar(c)),
            },
    {
        let mut out: Vec<u16> = Vec::new();
        let mut i: usize = 0;
        while i < s.len()
            invariant
                i <= s@.len(),
                encode_chars_spec(self@.0, s@.take(i as int)) == Ok::<Seq<u16>, char>(out@),
            decreases s@.len() - i,
        {
            proof {
                assert(s@.take(i as int + 1).drop_last() =~= s@.take(i as int));
            }
            let c = s[i];
            match self.encode_char(c) {
                Ok(code) => {
                    proof {
                        lemma_first_index(self@.0, c, 0, code - CHARSET_BASE);
                    }
                    out.push(code);
                },
                Err(e) => {
                    proof {
                        lemma_first_index(self@.0, c, 0, if self@.0.len() < 0x8000 { self@.0.len() as int } else { 0x8000 });
                        lemma_encode_chars_err(self@.0, s@, i as int + 1);
                    }
                    return Err(e);
                },
            }
            i = i + 1;
        }
        assert(s@.take(s@.len() as int) =~= s@);
        Ok(out)
    }
}

} // verus!
