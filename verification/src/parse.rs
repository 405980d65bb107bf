//! The prefab grammar and its single-pass, recursive-descent parser.
//!
//! Every parsing function is specified against a mathematical parser over the
//! source's characters (`sp_*`): each returns exactly the value and the new
//! position that its specification names, or exactly the error it names.

use vstd::prelude::*;
use crate::value::{Color, Decimal, ValueModel};

verus! {

broadcast use
    vstd::seq::group_seq_axioms,
    vstd::map::group_map_axioms,
    crate::value::lemma_fields_views,
    crate::value::lemma_values_views,
    crate::prefab::lemma_steps_views,
;

/// The grammar rule a parse error points at.
#[derive(Clone, Copy, Debug, PartialEq, Eq, Structural)]
pub enum GrammarRule {
    Prefab,
    Step,
    Component,
    Field,
    Value,
    Int,
    Float,
    CharLit,
    StringLit,
    Array,
    Range,
    ColorLit,
    ShapeLit,
    Vec3,
    Command,
    Path,
}

/// Why a prefab document could not be loaded.
#[derive(Debug, PartialEq)]
pub enum LoadPrefabError {
    /// The path has no source text in the registry's source store.
    FileReadError(String),
    /// The source violates the grammar: the offending rule and the character
    /// position at which parsing stopped.
    ParseError(GrammarRule, usize),
    /// The document names a component type that is not registered.
    UnregisteredComponent(String),
    /// The document names a build command that is not registered.
    UnregisteredCommand(String),
    /// A literal token could not be converted to its target type: the target
    /// type's name and the offending text.
    ValueParseError(String, String),
    /// The named type is registered with a shape that values cannot be built
    /// for.
    UnreflectedComponent(String),
    /// A prefab reached itself through its own nested includes.
    CyclicPrefabReference(String),
}

/// The mathematical model of a load error.
pub enum ErrModel {
    FileRead(Seq<char>),
    Parse(GrammarRule, int),
    UnregisteredComponent(Seq<char>),
    UnregisteredCommand(Seq<char>),
    ValueParse(Seq<char>, Seq<char>),
    Unreflected(Seq<char>),
    Cyclic(Seq<char>),
}

impl View for LoadPrefabError {
    type V = ErrModel;

    open spec fn view(&self) -> ErrModel {
        match self {
            LoadPrefabError::FileReadError(p) => ErrModel::FileRead(p@),
            LoadPrefabError::ParseError(r, p) => ErrModel::Parse(*r, *p as int),
            LoadPrefabError::UnregisteredComponent(n) => ErrModel::UnregisteredComponent(n@),
            LoadPrefabError::UnregisteredCommand(n) => ErrModel::UnregisteredCommand(n@),
            LoadPrefabError::ValueParseError(t, s) => ErrModel::ValueParse(t@, s@),
            LoadPrefabError::UnreflectedComponent(n) => ErrModel::Unreflected(n@),
            LoadPrefabError::CyclicPrefabReference(p) => ErrModel::Cyclic(p@),
        }
    }
}

/// Whitespace characters between tokens.
pub open spec fn is_ws_char(c: char) -> bool {
    c == ' ' || c == '\t' || c == '\n' || c == '\r'
}

/// Decimal digits.
pub open spec fn is_digit_char(c: char) -> bool {
    48 <= c as u32 <= 57
}

/// Characters that may begin an identifier.
pub open spec fn is_ident_start_char(c: char) -> bool {
    (65 <= c as u32 <= 90) || (97 <= c as u32 <= 122) || c == '_'
}

/// Characters that may continue an identifier.
pub open spec fn is_ident_char(c: char) -> bool {
    is_ident_start_char(c) || is_digit_char(c)
}

/// The first position at or after `pos` that does not hold whitespace.
pub open spec fn sp_skip_ws(s: Seq<char>, pos: int) -> int
    decreases s.len() - pos,
{
    if 0 <= pos < s.len() && is_ws_char(s[pos]) {
        sp_skip_ws(s, pos + 1)
    } else {
        pos
    }
}

/// `sp_skip_ws` stays within the source and stops before a non-blank.
pub proof fn lemma_skip_ws(s: Seq<char>, pos: int)
    requires
        0 <= pos <= s.len(),
    ensures
        pos <= sp_skip_ws(s, pos) <= s.len(),
        sp_skip_ws(s, pos) < s.len() ==> !is_ws_char(s[sp_skip_ws(s, pos)]),
    decreases s.len() - pos,
{
    if pos < s.len() && is_ws_char(s[pos]) {
        lemma_skip_ws(s, pos + 1);
    }
}

/// The first position at or after `pos` that does not continue an identifier.
pub open spec fn sp_ident_end(s: Seq<char>, pos: int) -> int
    decreases s.len() - pos,
{
    if 0 <= pos < s.len() && is_ident_char(s[pos]) {
        sp_ident_end(s, pos + 1)
    } else {
        pos
    }
}

/// `sp_ident_end` stays within the source; everything before it is an
/// identifier character.
pub proof fn lemma_ident_end(s: Seq<char>, pos: int)
    requires
        0 <= pos <= s.len(),
    ensures
        pos <= sp_ident_end(s, pos) <= s.len(),
        forall|i: int| pos <= i < sp_ident_end(s, pos) ==> is_ident_char(s[i]),
        sp_ident_end(s, pos) < s.len() ==> !is_ident_char(s[sp_ident_end(s, pos)]),
    decreases s.len() - pos,
{
    if pos < s.len() && is_ident_char(s[pos]) {
        lemma_ident_end(s, pos + 1);
    }
}

/// The first position at or after `pos` that does not hold a digit.
pub open spec fn sp_digits_end(s: Seq<char>, pos: int) -> int
    decreases s.len() - pos,
{
    if 0 <= pos < s.len() && is_digit_char(s[pos]) {
        sp_digits_end(s, pos + 1)
    } else {
        pos
    }
}

/// `sp_digits_end` stays within the source; everything before it is a digit.
pub proof fn lemma_digits_end(s: Seq<char>, pos: int)
    requires
        0 <= pos <= s.len(),
    ensures
        pos <= sp_digits_end(s, pos) <= s.len(),
        forall|i: int| pos <= i < sp_digits_end(s, pos) ==> is_digit_char(s[i]),
        sp_digits_end(s, pos) < s.len() ==> !is_digit_char(s[sp_digits_end(s, pos)]),
    decreases s.len() - pos,
{
    if pos < s.len() && is_digit_char(s[pos]) {
        lemma_digits_end(s, pos + 1);
    }
}

/// The value of the digit run `s[lo..hi]`, read left to right.
pub open spec fn sp_digits_val(s: Seq<char>, lo: int, hi: int) -> int
    decreases hi - lo,
{
    if lo >= hi {
        0
    } else {
        sp_digits_val(s, lo, hi - 1) * 10 + (s[hi - 1] as u32 - 48)
    }
}

/// Ten to the `n`.
pub open spec fn pow10(n: nat) -> int
    decreases n,
{
    if n == 0 {
        1
    } else {
        10 * pow10((n - 1) as nat)
    }
}

/// A digit run's value is nonnegative and below ten to its length.
pub proof fn lemma_digits_val_bound(s: Seq<char>, lo: int, hi: int)
    requires
        0 <= lo <= hi <= s.len(),
        forall|i: int| lo <= i < hi ==> is_digit_char(s[i]),
    ensures
        0 <= sp_digits_val(s, lo, hi) < pow10((hi - lo) as nat),
    decreases hi - lo,
{
    if lo < hi {
        lemma_digits_val_bound(s, lo, hi - 1);
    }
}

/// The first position at or after `pos` that closes a string literal.
pub open spec fn sp_str_end(s: Seq<char>, pos: int) -> int
    decreases s.len() - pos,
{
    if 0 <= pos < s.len() {
        if s[pos] == '"' {
            pos
        } else {
            sp_str_end(s, pos + 1)
        }
    } else {
        s.len() as int
    }
}

/// `sp_str_end` stays within the source and stops on a quote.
pub proof fn lemma_str_end(s: Seq<char>, pos: int)
    requires
        0 <= pos <= s.len(),
    ensures
        pos <= sp_str_end(s, pos) <= s.len(),
        sp_str_end(s, pos) < s.len() ==> s[sp_str_end(s, pos)] == '"',
    decreases s.len() - pos,
{
    if pos < s.len() && s[pos] != '"' {
        lemma_str_end(s, pos + 1);
    }
}

/// Parses an integer literal: an optional minus sign and a digit run, in
/// `i32` range.
pub open spec fn sp_parse_int(s: Seq<char>, pos: int) -> Result<(i32, int), ErrModel> {
    let neg = 0 <= pos < s.len() && s[pos] == '-';
    let d0 = if neg {
        pos + 1
    } else {
        pos
    };
    let dend = sp_digits_end(s, d0);
    if dend == d0 {
        Err(ErrModel::Parse(GrammarRule::Int, d0))
    } else {
        let m = sp_digits_val(s, d0, dend);
        if neg {
            if m > 2147483648 {
                Err(ErrModel::ValueParse("i32"@, s.subrange(pos, dend)))
            } else {
                Ok(((-m) as i32, dend))
            }
        } else {
            if m > 2147483647 {
                Err(ErrModel::ValueParse("i32"@, s.subrange(pos, dend)))
            } else {
                Ok((m as i32, dend))
            }
        }
    }
}

/// Parses a number literal: a float when a fractional part follows the digit
/// run, an integer otherwise.
pub open spec fn sp_parse_number(s: Seq<char>, pos: int) -> Result<(ValueModel, int), ErrModel> {
    let neg = 0 <= pos < s.len() && s[pos] == '-';
    let d0 = if neg {
        pos + 1
    } else {
        pos
    };
    let dend = sp_digits_end(s, d0);
    if dend == d0 {
        Err(ErrModel::Parse(GrammarRule::Int, d0))
    } else if dend < s.len() && s[dend] == '.' {
        let f0 = dend + 1;
        let fend = sp_digits_end(s, f0);
        if fend == f0 {
            Err(ErrModel::Parse(GrammarRule::Float, f0))
        } else {
            let ip = sp_digits_val(s, d0, dend);
            let fv = sp_digits_val(s, f0, fend);
            let flen = fend - f0;
            if ip > 4294967295 || flen > 9 {
                Err(ErrModel::ValueParse("float"@, s.subrange(pos, fend)))
            } else {
                Ok(
                    (
                        ValueModel::Float(
                            Decimal {
                                neg,
                                int_part: ip as u32,
                                frac_part: fv as u32,
                                frac_len: flen as u32,
                            },
                        ),
                        fend,
                    ),
                )
            }
        }
    } else {
        match sp_parse_int(s, pos) {
            Ok((v, np)) => Ok((ValueModel::Int(v), np)),
            Err(e) => Err(e),
        }
    }
}

/// Parses a string literal: the characters between the quotes.
pub open spec fn sp_parse_string_lit(s: Seq<char>, pos: int) -> Result<
    (Seq<char>, int),
    ErrModel,
> {
    let e = sp_str_end(s, pos + 1);
    if e >= s.len() {
        Err(ErrModel::Parse(GrammarRule::StringLit, pos))
    } else {
        Ok((s.subrange(pos + 1, e), e + 1))
    }
}

/// Parses a char literal: the single character between the quotes, stored as
/// its low byte.
pub open spec fn sp_parse_char_lit(s: Seq<char>, pos: int) -> Result<(u8, int), ErrModel> {
    if pos + 2 >= s.len() {
        Err(ErrModel::Parse(GrammarRule::CharLit, pos))
    } else if s[pos + 2] != '\'' {
        Err(ErrModel::Parse(GrammarRule::CharLit, pos + 2))
    } else {
        Ok((s[pos + 1] as u8, pos + 3))
    }
}

/// Parses a color literal after the `Color` keyword: `::` and one of the
/// named constants.
pub open spec fn sp_parse_color(s: Seq<char>, e: int) -> Result<(Color, int), ErrModel> {
    if e + 1 >= s.len() || s[e] != ':' || s[e + 1] != ':' {
        Err(ErrModel::Parse(GrammarRule::ColorLit, e))
    } else {
        let n0 = e + 2;
        let n1 = sp_ident_end(s, n0);
        let name = s.subrange(n0, n1);
        if name == "RED"@ {
            Ok((Color::Red, n1))
        } else if name == "GREEN"@ {
            Ok((Color::Green, n1))
        } else if name == "BLUE"@ {
            Ok((Color::Blue, n1))
        } else if name == "YELLOW"@ {
            Ok((Color::Yellow, n1))
        } else if name == "PINK"@ {
            Ok((Color::Pink, n1))
        } else {
            Err(ErrModel::Parse(GrammarRule::ColorLit, n0))
        }
    }
}

/// Parses a shape literal after the `shape` keyword: `::` and one of the
/// named shapes.
pub open spec fn sp_parse_shape(s: Seq<char>, e: int) -> Result<(Seq<char>, int), ErrModel> {
    if e + 1 >= s.len() || s[e] != ':' || s[e + 1] != ':' {
        Err(ErrModel::Parse(GrammarRule::ShapeLit, e))
    } else {
        let n0 = e + 2;
        let n1 = sp_ident_end(s, n0);
        let name = s.subrange(n0, n1);
        if name == "Cube"@ || name == "Plane"@ || name == "Quad"@ {
            Ok((name, n1))
        } else {
            Err(ErrModel::Parse(GrammarRule::ShapeLit, n0))
        }
    }
}

/// Skips whitespace, as `sp_skip_ws` says.
pub fn skip_ws(s: &str, pos: usize) -> (r: usize)
    requires
        pos <= s@.len(),
    ensures
        r == sp_skip_ws(s@, pos as int),
        pos <= r <= s@.len(),
    decreases s@.len() - pos,
{
    let n = s.unicode_len();
    if pos < n {
        let c = s.get_char(pos);
        if c == ' ' || c == '\t' || c == '\n' || c == '\r' {
            return skip_ws(s, pos + 1);
        }
    }
    pos
}

/// Scans to the end of an identifier, as `sp_ident_end` says.
pub fn ident_end(s: &str, pos: usize) -> (r: usize)
    requires
        pos <= s@.len(),
    ensures
        r == sp_ident_end(s@, pos as int),
        pos <= r <= s@.len(),
    decreases s@.len() - pos,
{
    let n = s.unicode_len();
    if pos < n {
        let c = s.get_char(pos);
        let u = c as u32;
        if (65 <= u && u <= 90) || (97 <= u && u <= 122) || c == '_' || (48 <= u && u <= 57) {
            return ident_end(s, pos + 1);
        }
    }
    pos
}

/// Scans to the end of a digit run, as `sp_digits_end` says.
pub fn digits_end(s: &str, pos: usize) -> (r: usize)
    requires
        pos <= s@.len(),
    ensures
        r == sp_digits_end(s@, pos as int),
        pos <= r <= s@.len(),
    decreases s@.len() - pos,
{
    let n = s.unicode_len();
    if pos < n {
        let c = s.get_char(pos);
        let u = c as u32;
        if 48 <= u && u <= 57 {
            return digits_end(s, pos + 1);
        }
    }
    pos
}

/// Evaluates the digit run `s[lo..hi]`, clamped above `4294967295` so that
/// every range check the grammar needs is decided exactly.
fn digits_value_capped(s: &str, lo: usize, hi: usize) -> (r: u64)
    requires
        lo <= hi <= s@.len(),
        forall|i: int| lo <= i < hi ==> is_digit_char(s@[i]),
    ensures
        sp_digits_val(s@, lo as int, hi as int) <= 4294967295 ==> r == sp_digits_val(
            s@,
            lo as int,
            hi as int,
        ),
        sp_digits_val(s@, lo as int, hi as int) > 4294967295 ==> r > 4294967295,
{
    let mut acc: u64 = 0;
    let mut i: usize = lo;
    while i < hi
        invariant
            lo <= i <= hi <= s@.len(),
            forall|k: int| lo <= k < hi ==> is_digit_char(s@[k]),
            acc <= 42949672959,
            sp_digits_val(s@, lo as int, i as int) <= 4294967295 ==> acc == sp_digits_val(
                s@,
                lo as int,
                i as int,
            ),
            sp_digits_val(s@, lo as int, i as int) > 4294967295 ==> acc > 4294967295,
        decreases hi - i,
    {
        let c = s.get_char(i);
        let d = (c as u32) - 48;
        proof {
            lemma_digits_val_bound(s@, lo as int, i as int);
            assert(sp_digits_val(s@, lo as int, i as int + 1) == sp_digits_val(
                s@,
                lo as int,
                i as int,
            ) * 10 + d);
        }
        if acc <= 4294967295 {
            acc = acc * 10 + (d as u64);
        }
        i = i + 1;
    }
    acc
}

/// Parses an integer literal, as `sp_parse_int` says.
pub fn parse_int(s: &str, pos: usize) -> (r: Result<(i32, usize), LoadPrefabError>)
    requires
        pos <= s@.len(),
    ensures
        match (r, sp_parse_int(s@, pos as int)) {
            (Ok((v, np)), Ok((vm, npm))) => v == vm && np == npm && pos < np <= s@.len(),
            (Err(e), Err(em)) => e@ == em,
            _ => false,
        },
{
    let n = s.unicode_len();
    let neg = pos < n && s.get_char(pos) == '-';
    let d0 = if neg {
        pos + 1
    } else {
        pos
    };
    let dend = digits_end(s, d0);
    proof {
        lemma_digits_end(s@, d0 as int);
    }
    if dend == d0 {
        return Err(LoadPrefabError::ParseError(GrammarRule::Int, d0));
    }
    proof {
        lemma_digits_val_bound(s@, d0 as int, dend as int);
    }
    let m = digits_value_capped(s, d0, dend);
    if neg {
        if m > 2147483648 {
            let text = s.substring_char(pos, dend).to_owned();
            return Err(LoadPrefabError::ValueParseError("i32".to_owned(), text));
        }
        let v: i32 = (-(m as i64)) as i32;
        Ok((v, dend))
    } else {
        if m > 2147483647 {
            let text = s.substring_char(pos, dend).to_owned();
            return Err(LoadPrefabError::ValueParseError("i32".to_owned(), text));
        }
        Ok((m as i32, dend))
    }
}

/// Parses a number literal, as `sp_parse_number` says.
pub fn parse_number(s: &str, pos: usize) -> (r: Result<(crate::value::DynamicValue, usize), LoadPrefabError>)
    requires
        pos <= s@.len(),
    ensures
        match (r, sp_parse_number(s@, pos as int)) {
            (Ok((v, np)), Ok((vm, npm))) => v@ == vm && np == npm && pos < np <= s@.len(),
            (Err(e), Err(em)) => e@ == em,
            _ => false,
        },
{
    let n = s.unicode_len();
    let neg = pos < n && s.get_char(pos) == '-';
    let d0 = if neg {
        pos + 1
    } else {
        pos
    };
    let dend = digits_end(s, d0);
    proof {
        lemma_digits_end(s@, d0 as int);
    }
    if dend == d0 {
        return Err(LoadPrefabError::ParseError(GrammarRule::Int, d0));
    }
    if dend < n && s.get_char(dend) == '.' {
        let f0 = dend + 1;
        let fend = digits_end(s, f0);
        proof {
            lemma_digits_end(s@, f0 as int);
        }
        if fend == f0 {
            return Err(LoadPrefabError::ParseError(GrammarRule::Float, f0));
        }
        proof {
            lemma_digits_val_bound(s@, d0 as int, dend as int);
            lemma_digits_val_bound(s@, f0 as int, fend as int);
        }
        let ip = digits_value_capped(s, d0, dend);
        let flen = fend - f0;
        if ip > 4294967295 || flen > 9 {
            let text = s.substring_char(pos, fend).to_owned();
            return Err(LoadPrefabError::ValueParseError("float".to_owned(), text));
        }
        let fv = digits_value_capped(s, f0, fend);
        proof {
            lemma_pow10_le(flen as nat, 9);
            reveal_with_fuel(pow10, 11);
            assert(sp_digits_val(s@, f0 as int, fend as int) < 1000000000);
        }
        let d = Decimal {
            neg,
            int_part: ip as u32,
            frac_part: fv as u32,
            frac_len: flen as u32,
        };
        Ok((crate::value::DynamicValue::Float(d), fend))
    } else {
        match parse_int(s, pos) {
            Ok((v, np)) => Ok((crate::value::DynamicValue::Int(v), np)),
            Err(e) => Err(e),
        }
    }
}

/// `pow10` grows with its exponent.
pub proof fn lemma_pow10_le(m: nat, n: nat)
    requires
        m <= n,
    ensures
        pow10(m) <= pow10(n),
    decreases n,
{
    if m < n {
        lemma_pow10_le(m, (n - 1) as nat);
        lemma_pow10_pos((n - 1) as nat);
    }
}

/// `pow10` is positive.
pub proof fn lemma_pow10_pos(n: nat)
    ensures
        pow10(n) >= 1,
    decreases n,
{
    if n > 0 {
        lemma_pow10_pos((n - 1) as nat);
    }
}

/// Parses a string literal, as `sp_parse_string_lit` says.
pub fn parse_string(s: &str, pos: usize) -> (r: Result<(String, usize), LoadPrefabError>)
    requires
        pos < s@.len(),
    ensures
        match (r, sp_parse_string_lit(s@, pos as int)) {
            (Ok((v, np)), Ok((vm, npm))) => v@ == vm && np == npm && pos < np <= s@.len(),
            (Err(e), Err(em)) => e@ == em,
            _ => false,
        },
{
    let n = s.unicode_len();
    let e = str_end(s, pos + 1);
    proof {
        lemma_str_end(s@, pos as int + 1);
    }
    if e >= n {
        return Err(LoadPrefabError::ParseError(GrammarRule::StringLit, pos));
    }
    let content = s.substring_char(pos + 1, e).to_owned();
    Ok((content, e + 1))
}

/// Scans to the closing quote, as `sp_str_end` says.
fn str_end(s: &str, pos: usize) -> (r: usize)
    requires
        pos <= s@.len(),
    ensures
        r == sp_str_end(s@, pos as int),
        pos <= r <= s@.len(),
    decreases s@.len() - pos,
{
    let n = s.unicode_len();
    if pos < n {
        if s.get_char(pos) == '"' {
            return pos;
        }
        return str_end(s, pos + 1);
    }
    n
}

/// Parses a char literal, as `sp_parse_char_lit` says.
pub fn parse_char(s: &str, pos: usize) -> (r: Result<(u8, usize), LoadPrefabError>)
    requires
        pos < s@.len(),
    ensures
        match (r, sp_parse_char_lit(s@, pos as int)) {
            (Ok((v, np)), Ok((vm, npm))) => v == vm && np == npm && pos < np <= s@.len(),
            (Err(e), Err(em)) => e@ == em,
            _ => false,
        },
{
    let n = s.unicode_len();
    if n - pos < 3 {
        return Err(LoadPrefabError::ParseError(GrammarRule::CharLit, pos));
    }
    if s.get_char(pos + 2) != '\'' {
        return Err(LoadPrefabError::ParseError(GrammarRule::CharLit, pos + 2));
    }
    let c = s.get_char(pos + 1);
    let b = #[verifier::truncate] (c as u8);
    Ok((b, pos + 3))
}

} // verus!

verus! {

/// The next position for a recursive descent: `q` where the grammar has
/// advanced to `q`, clamped so that it always moves forward and never leaves
/// the source.  On every real path `q` already is in `(p, len]`, and `adv`
/// hands `q` back unchanged.
pub open spec fn adv(s: Seq<char>, p: int, q: int) -> int {
    let a = if q > p {
        q
    } else {
        p + 1
    };
    if a <= s.len() {
        a
    } else {
        s.len() as int
    }
}

/// Folds fields into a named-field composite: a repeated name replaces the
/// earlier field, as `insert_field` says.
pub open spec fn fold_insert(fs: Seq<crate::value::FieldModel>) -> Seq<crate::value::FieldModel>
    decreases fs.len(),
{
    if fs.len() == 0 {
        Seq::empty()
    } else {
        crate::value::insert_field(fold_insert(fs.drop_last()), fs.last())
    }
}

/// How parsed fields are assembled for a shape: named-field containers fold
/// by name, positional containers keep the fields as they came.
pub open spec fn build_fields_model(
    shape: crate::value::StructuralShape,
    fs: Seq<crate::value::FieldModel>,
) -> Seq<crate::value::FieldModel> {
    if shape == crate::value::StructuralShape::Struct {
        fold_insert(fs)
    } else {
        fs
    }
}

/// Whether a shape supports building a composite from field literals.
pub open spec fn shape_supported(shape: crate::value::StructuralShape) -> bool {
    shape == crate::value::StructuralShape::Struct || shape
        == crate::value::StructuralShape::TupleStruct || shape
        == crate::value::StructuralShape::Tuple
}

/// Parses an integer range literal `(a..b)`; `p` points at the parenthesis.
pub open spec fn sp_parse_range(s: Seq<char>, p: int) -> Result<(ValueModel, int), ErrModel> {
    let p1 = sp_skip_ws(s, p + 1);
    match sp_parse_int(s, p1) {
        Err(e) => Err(e),
        Ok((a, q1)) => {
            let p2 = sp_skip_ws(s, q1);
            if p2 + 1 >= s.len() || s[p2] != '.' || s[p2 + 1] != '.' {
                Err(ErrModel::Parse(GrammarRule::Range, p2))
            } else {
                let p3 = sp_skip_ws(s, p2 + 2);
                match sp_parse_int(s, p3) {
                    Err(e) => Err(e),
                    Ok((b, q2)) => {
                        let p4 = sp_skip_ws(s, q2);
                        if p4 >= s.len() || s[p4] != ')' {
                            Err(ErrModel::Parse(GrammarRule::Range, p4))
                        } else {
                            Ok(
                                (
                                    ValueModel::Range(
                                        crate::value::RangeValue { start: a, end: b },
                                    ),
                                    p4 + 1,
                                ),
                            )
                        }
                    },
                }
            }
        },
    }
}

/// Parses the brace body of a `Vec3` literal: `name: float` fields for `x`,
/// `y` and `z`, other names ignored, unset components left as they are.
pub open spec fn sp_parse_vec3_fields(
    s: Seq<char>,
    pos: int,
    acc: crate::value::Vector3Value,
) -> Result<(crate::value::Vector3Value, int), ErrModel>
    decreases s.len() - pos,
{
    if pos >= s.len() {
        Err(ErrModel::Parse(GrammarRule::Vec3, pos))
    } else {
        let p = sp_skip_ws(s, pos);
        if p >= s.len() {
            Err(ErrModel::Parse(GrammarRule::Vec3, p))
        } else if s[p] == '}' {
            Ok((acc, p + 1))
        } else {
            let e = sp_ident_end(s, p);
            if e == p {
                Err(ErrModel::Parse(GrammarRule::Field, p))
            } else {
                let name = s.subrange(p, e);
                let q = sp_skip_ws(s, e);
                if !(q < s.len() && s[q] == ':') {
                    Err(ErrModel::Parse(GrammarRule::Field, q))
                } else {
                    let v0 = sp_skip_ws(s, q + 1);
                    if v0 >= s.len() || !(s[v0] == '-' || is_digit_char(s[v0])) {
                        Err(ErrModel::Parse(GrammarRule::Float, v0))
                    } else {
                        match sp_parse_number(s, v0) {
                            Err(e2) => Err(e2),
                            Ok((vm, np)) => match vm {
                                ValueModel::Float(d) => {
                                    let acc2 = if name == "x"@ {
                                        crate::value::Vector3Value { x: d, ..acc }
                                    } else if name == "y"@ {
                                        crate::value::Vector3Value { y: d, ..acc }
                                    } else if name == "z"@ {
                                        crate::value::Vector3Value { z: d, ..acc }
                                    } else {
                                        acc
                                    };
                                    let q3 = sp_skip_ws(s, np);
                                    if q3 >= s.len() {
                                        Err(ErrModel::Parse(GrammarRule::Vec3, q3))
                                    } else if s[q3] == '}' {
                                        Ok((acc2, q3 + 1))
                                    } else if s[q3] == ',' {
                                        sp_parse_vec3_fields(
                                            s,
                                            adv(s, pos, sp_skip_ws(s, q3 + 1)),
                                            acc2,
                                        )
                                    } else {
                                        Err(ErrModel::Parse(GrammarRule::Vec3, q3))
                                    }
                                },
                                _ => Err(
                                    ErrModel::ValueParse("f32"@, s.subrange(v0, np)),
                                ),
                            },
                        }
                    }
                }
            }
        }
    }
}

/// Parses a `Vec3` literal after its keyword: a braced field list whose
/// values must be float literals.
pub open spec fn sp_parse_vec3(s: Seq<char>, e: int) -> Result<(ValueModel, int), ErrModel> {
    let q = sp_skip_ws(s, e);
    if !(q < s.len() && s[q] == '{') {
        Err(ErrModel::Parse(GrammarRule::Vec3, q))
    } else {
        match sp_parse_vec3_fields(
            s,
            q + 1,
            crate::value::Vector3Value {
                x: Decimal { neg: false, int_part: 0, frac_part: 0, frac_len: 0 },
                y: Decimal { neg: false, int_part: 0, frac_part: 0, frac_len: 0 },
                z: Decimal { neg: false, int_part: 0, frac_part: 0, frac_len: 0 },
            },
        ) {
            Ok((v, np)) => Ok((ValueModel::Vector3(v), np)),
            Err(e2) => Err(e2),
        }
    }
}

/// Parses one value: a literal, or a nested component resolved against the
/// registered types.
pub open spec fn sp_parse_value(
    s: Seq<char>,
    pos: int,
    tm: Map<Seq<char>, crate::registry::TypeModel>,
) -> Result<(ValueModel, int), ErrModel>
    decreases s.len() - pos, 3int,
{
    let p = sp_skip_ws(s, pos);
    if p >= s.len() {
        Err(ErrModel::Parse(GrammarRule::Value, p))
    } else {
        let c = s[p];
        if c == '-' || is_digit_char(c) {
            sp_parse_number(s, p)
        } else if c == '\'' {
            match sp_parse_char_lit(s, p) {
                Ok((b, np)) => Ok((ValueModel::Char(b), np)),
                Err(e) => Err(e),
            }
        } else if c == '"' {
            match sp_parse_string_lit(s, p) {
                Ok((t, np)) => Ok((ValueModel::Str(t), np)),
                Err(e) => Err(e),
            }
        } else if c == '[' {
            match sp_parse_array_items(s, adv(s, pos, p + 1), tm, Seq::empty()) {
                Ok((items, np)) => Ok((ValueModel::List(items), np)),
                Err(e) => Err(e),
            }
        } else if c == '(' {
            sp_parse_range(s, p)
        } else if is_ident_start_char(c) {
            let e = sp_ident_end(s, p);
            let name = s.subrange(p, e);
            if name == "Color"@ {
                match sp_parse_color(s, e) {
                    Ok((col, np)) => Ok((ValueModel::Color(col), np)),
                    Err(e2) => Err(e2),
                }
            } else if name == "shape"@ {
                match sp_parse_shape(s, e) {
                    Ok((sh, np)) => Ok((ValueModel::Shape(sh), np)),
                    Err(e2) => Err(e2),
                }
            } else if name == "Vec3"@ {
                sp_parse_vec3(s, e)
            } else {
                match sp_parse_component(s, pos, tm) {
                    Ok(((_tn, v), np)) => Ok((v, np)),
                    Err(e2) => Err(e2),
                }
            }
        } else {
            Err(ErrModel::Parse(GrammarRule::Value, p))
        }
    }
}

/// Parses the elements of an array literal after `[`: at least one value,
/// commas between, an optional trailing comma, then `]`.
pub open spec fn sp_parse_array_items(
    s: Seq<char>,
    pos: int,
    tm: Map<Seq<char>, crate::registry::TypeModel>,
    acc: Seq<ValueModel>,
) -> Result<(Seq<ValueModel>, int), ErrModel>
    decreases s.len() - pos, 4int,
{
    if pos >= s.len() {
        Err(ErrModel::Parse(GrammarRule::Value, pos))
    } else {
        match sp_parse_value(s, pos, tm) {
            Err(e) => Err(e),
            Ok((v, np)) => {
                let q = sp_skip_ws(s, np);
                if q >= s.len() {
                    Err(ErrModel::Parse(GrammarRule::Array, q))
                } else if s[q] == ']' {
                    Ok((acc.push(v), q + 1))
                } else if s[q] == ',' {
                    let r = sp_skip_ws(s, q + 1);
                    if r < s.len() && s[r] == ']' {
                        Ok((acc.push(v), r + 1))
                    } else {
                        sp_parse_array_items(s, adv(s, pos, r), tm, acc.push(v))
                    }
                } else {
                    Err(ErrModel::Parse(GrammarRule::Array, q))
                }
            },
        }
    }
}

/// Parses one `name: value` field.
pub open spec fn sp_parse_field(
    s: Seq<char>,
    pos: int,
    tm: Map<Seq<char>, crate::registry::TypeModel>,
) -> Result<(crate::value::FieldModel, int), ErrModel>
    decreases s.len() - pos, 5int,
{
    let p = sp_skip_ws(s, pos);
    if p >= s.len() {
        Err(ErrModel::Parse(GrammarRule::Field, p))
    } else {
        let e = sp_ident_end(s, p);
        if e == p {
            Err(ErrModel::Parse(GrammarRule::Field, p))
        } else {
            let name = s.subrange(p, e);
            let q = sp_skip_ws(s, e);
            if !(q < s.len() && s[q] == ':') {
                Err(ErrModel::Parse(GrammarRule::Field, q))
            } else {
                match sp_parse_value(s, adv(s, pos, q + 1), tm) {
                    Ok((v, np)) => Ok((crate::value::FieldModel { name, value: v }, np)),
                    Err(e2) => Err(e2),
                }
            }
        }
    }
}

/// Parses a field list after an opening brace or parenthesis: at least one
/// field, commas between, an optional trailing comma, then `term`.
pub open spec fn sp_parse_fields(
    s: Seq<char>,
    pos: int,
    tm: Map<Seq<char>, crate::registry::TypeModel>,
    term: char,
    acc: Seq<crate::value::FieldModel>,
) -> Result<(Seq<crate::value::FieldModel>, int), ErrModel>
    decreases s.len() - pos, 6int,
{
    if pos >= s.len() {
        Err(ErrModel::Parse(GrammarRule::Field, pos))
    } else {
        match sp_parse_field(s, pos, tm) {
            Err(e) => Err(e),
            Ok((f, np)) => {
                let q = sp_skip_ws(s, np);
                if q >= s.len() {
                    Err(ErrModel::Parse(GrammarRule::Field, q))
                } else if s[q] == term {
                    Ok((acc.push(f), q + 1))
                } else if s[q] == ',' {
                    let r = sp_skip_ws(s, q + 1);
                    if r < s.len() && s[r] == term {
                        Ok((acc.push(f), r + 1))
                    } else {
                        sp_parse_fields(s, adv(s, pos, r), tm, term, acc.push(f))
                    }
                } else {
                    Err(ErrModel::Parse(GrammarRule::Field, q))
                }
            },
        }
    }
}

/// Parses one component: a registered type name and an optional braced field
/// list, built into a composite of the type's shape.
pub open spec fn sp_parse_component(
    s: Seq<char>,
    pos: int,
    tm: Map<Seq<char>, crate::registry::TypeModel>,
) -> Result<((Seq<char>, ValueModel), int), ErrModel>
    decreases s.len() - pos, 2int,
{
    let p = sp_skip_ws(s, pos);
    if p >= s.len() {
        Err(ErrModel::Parse(GrammarRule::Component, p))
    } else {
        let e = sp_ident_end(s, p);
        if e == p {
            Err(ErrModel::Parse(GrammarRule::Component, p))
        } else {
            let name = s.subrange(p, e);
            if !tm.contains_key(name) {
                Err(ErrModel::UnregisteredComponent(name))
            } else if !shape_supported(tm[name].shape) {
                Err(ErrModel::Unreflected(name))
            } else {
                let shape = tm[name].shape;
                let q = sp_skip_ws(s, e);
                if q < s.len() && s[q] == '{' {
                    match sp_parse_fields(s, adv(s, pos, q + 1), tm, '}', Seq::empty()) {
                        Ok((fs, np)) => Ok(
                            (
                                (
                                    name,
                                    ValueModel::Composite(shape, build_fields_model(shape, fs)),
                                ),
                                np,
                            ),
                        ),
                        Err(e2) => Err(e2),
                    }
                } else {
                    Ok(((name, ValueModel::Composite(shape, Seq::empty())), e))
                }
            }
        }
    }
}

/// Parses one command call after its name: `!`, a parenthesized argument
/// list (empty, a field list, or one component literal whose fields become
/// the properties).
pub open spec fn sp_parse_command(
    s: Seq<char>,
    pos: int,
    tm: Map<Seq<char>, crate::registry::TypeModel>,
    cmds: Set<Seq<char>>,
) -> Result<((Seq<char>, Option<ValueModel>), int), ErrModel>
    decreases s.len() - pos, 7int,
{
    let p = sp_skip_ws(s, pos);
    if p >= s.len() {
        Err(ErrModel::Parse(GrammarRule::Command, p))
    } else {
        let e = sp_ident_end(s, p);
        if e == p {
            Err(ErrModel::Parse(GrammarRule::Command, p))
        } else {
            let name = s.subrange(p, e);
            if !(e < s.len() && s[e] == '!') {
                Err(ErrModel::Parse(GrammarRule::Command, e))
            } else if !cmds.contains(name) {
                Err(ErrModel::UnregisteredCommand(name))
            } else {
                let q = sp_skip_ws(s, e + 1);
                if !(q < s.len() && s[q] == '(') {
                    Err(ErrModel::Parse(GrammarRule::Command, q))
                } else {
                    let r = sp_skip_ws(s, q + 1);
                    if r >= s.len() {
                        Err(ErrModel::Parse(GrammarRule::Command, r))
                    } else if s[r] == ')' {
                        Ok(((name, None), r + 1))
                    } else if is_ident_start_char(s[r]) {
                        let e2 = sp_ident_end(s, r);
                        let q2 = sp_skip_ws(s, e2);
                        if q2 < s.len() && s[q2] == '{' {
                            match sp_parse_fields(s, adv(s, pos, q2 + 1), tm, '}', Seq::empty()) {
                                Err(e3) => Err(e3),
                                Ok((fs, np)) => {
                                    let q3 = sp_skip_ws(s, np);
                                    if q3 < s.len() && s[q3] == ')' {
                                        Ok(
                                            (
                                                (
                                                    name,
                                                    Some(
                                                        ValueModel::Composite(
                                                            crate::value::StructuralShape::Struct,
                                                            fold_insert(fs),
                                                        ),
                                                    ),
                                                ),
                                                q3 + 1,
                                            ),
                                        )
                                    } else {
                                        Err(ErrModel::Parse(GrammarRule::Command, q3))
                                    }
                                },
                            }
                        } else {
                            match sp_parse_fields(s, adv(s, pos, r), tm, ')', Seq::empty()) {
                                Err(e3) => Err(e3),
                                Ok((fs, np)) => Ok(
                                    (
                                        (
                                            name,
                                            Some(
                                                ValueModel::Composite(
                                                    crate::value::StructuralShape::Struct,
                                                    fold_insert(fs),
                                                ),
                                            ),
                                        ),
                                        np,
                                    ),
                                ),
                            }
                        }
                    } else {
                        Err(ErrModel::Parse(GrammarRule::Command, r))
                    }
                }
            }
        }
    }
}

/// Parses one build step: a nested-prefab include, a command call, or a
/// component.
pub open spec fn sp_parse_step(
    s: Seq<char>,
    pos: int,
    tm: Map<Seq<char>, crate::registry::TypeModel>,
    cmds: Set<Seq<char>>,
) -> Result<(crate::prefab::StepModel, int), ErrModel>
    decreases s.len() - pos, 8int,
{
    let p = sp_skip_ws(s, pos);
    if p >= s.len() {
        Err(ErrModel::Parse(GrammarRule::Step, p))
    } else if !is_ident_start_char(s[p]) {
        Err(ErrModel::Parse(GrammarRule::Step, p))
    } else {
        let e = sp_ident_end(s, p);
        let name = s.subrange(p, e);
        if e < s.len() && s[e] == '!' {
            if name == "load"@ {
                let q = sp_skip_ws(s, e + 1);
                if !(q < s.len() && s[q] == '(') {
                    Err(ErrModel::Parse(GrammarRule::Path, q))
                } else {
                    let r = sp_skip_ws(s, q + 1);
                    if !(r < s.len() && s[r] == '"') {
                        Err(ErrModel::Parse(GrammarRule::Path, r))
                    } else {
                        match sp_parse_string_lit(s, r) {
                            Err(e2) => Err(e2),
                            Ok((path, np)) => {
                                let q2 = sp_skip_ws(s, np);
                                if !(q2 < s.len() && s[q2] == ')') {
                                    Err(ErrModel::Parse(GrammarRule::Path, q2))
                                } else {
                                    Ok((crate::prefab::StepModel::Nested { path }, q2 + 1))
                                }
                            },
                        }
                    }
                }
            } else {
                match sp_parse_command(s, pos, tm, cmds) {
                    Ok(((n, props), np)) => Ok(
                        (crate::prefab::StepModel::RunCmd { name: n, props }, np),
                    ),
                    Err(e2) => Err(e2),
                }
            }
        } else {
            match sp_parse_component(s, pos, tm) {
                Ok(((tn, v), np)) => Ok(
                    (crate::prefab::StepModel::AddComp { type_key: tn, value: v }, np),
                ),
                Err(e2) => Err(e2),
            }
        }
    }
}

/// Parses a step list after the document's opening brace: at least one step,
/// commas between, an optional trailing comma, then `}`.
pub open spec fn sp_parse_steps(
    s: Seq<char>,
    pos: int,
    tm: Map<Seq<char>, crate::registry::TypeModel>,
    cmds: Set<Seq<char>>,
    acc: Seq<crate::prefab::StepModel>,
) -> Result<(Seq<crate::prefab::StepModel>, int), ErrModel>
    decreases s.len() - pos, 9int,
{
    if pos >= s.len() {
        Err(ErrModel::Parse(GrammarRule::Step, pos))
    } else {
        match sp_parse_step(s, pos, tm, cmds) {
            Err(e) => Err(e),
            Ok((st, np)) => {
                let q = sp_skip_ws(s, np);
                if q >= s.len() {
                    Err(ErrModel::Parse(GrammarRule::Prefab, q))
                } else if s[q] == '}' {
                    Ok((acc.push(st), q + 1))
                } else if s[q] == ',' {
                    let r = sp_skip_ws(s, q + 1);
                    if r < s.len() && s[r] == '}' {
                        Ok((acc.push(st), r + 1))
                    } else {
                        sp_parse_steps(s, adv(s, pos, r), tm, cmds, acc.push(st))
                    }
                } else {
                    Err(ErrModel::Parse(GrammarRule::Prefab, q))
                }
            },
        }
    }
}

/// Parses a whole prefab document: an optional name, a braced step list, and
/// nothing but whitespace after it.
pub open spec fn sp_parse_prefab(
    s: Seq<char>,
    tm: Map<Seq<char>, crate::registry::TypeModel>,
    cmds: Set<Seq<char>>,
) -> Result<crate::prefab::PrefabModel, ErrModel> {
    let p = sp_skip_ws(s, 0);
    if p >= s.len() {
        Err(ErrModel::Parse(GrammarRule::Prefab, p))
    } else {
        let named = is_ident_start_char(s[p]);
        let e = sp_ident_end(s, p);
        let name = if named {
            Some(s.subrange(p, e))
        } else {
            None
        };
        let q = if named {
            sp_skip_ws(s, e)
        } else {
            p
        };
        if !(q < s.len() && s[q] == '{') {
            Err(ErrModel::Parse(GrammarRule::Prefab, q))
        } else {
            match sp_parse_steps(s, q + 1, tm, cmds, Seq::empty()) {
                Err(e2) => Err(e2),
                Ok((steps, np)) => {
                    let t = sp_skip_ws(s, np);
                    if t < s.len() {
                        Err(ErrModel::Parse(GrammarRule::Prefab, t))
                    } else {
                        Ok(crate::prefab::PrefabModel { name, steps })
                    }
                },
            }
        }
    }
}

} // verus!

verus! {

/// Whether a step only names registered types and commands.
pub open spec fn step_registered(
    st: crate::prefab::StepModel,
    tm: Map<Seq<char>, crate::registry::TypeModel>,
    cmds: Set<Seq<char>>,
) -> bool {
    match st {
        crate::prefab::StepModel::AddComp { type_key, .. } => tm.contains_key(type_key),
        crate::prefab::StepModel::RunCmd { name, .. } => cmds.contains(name),
        crate::prefab::StepModel::Nested { .. } => true,
    }
}

/// Builds a named-field composite from parsed fields, folding repeated names
/// as `fold_insert` says.
fn build_struct_composite(fields: Vec<crate::value::FieldValue>) -> (cv: crate::value::CompositeValue)
    ensures
        cv.shape == crate::value::StructuralShape::Struct,
        cv.spec_fields() == fold_insert(crate::value::fields_views(fields)),
{
    let mut cv = crate::value::CompositeValue::empty(crate::value::StructuralShape::Struct);
    let ghost all = crate::value::fields_views(fields);
    proof {
        assert(all.subrange(0, 0) =~= Seq::empty());
    }
    let mut i: usize = 0;
    while i < fields.len()
        invariant
            i <= fields.len(),
            all == crate::value::fields_views(fields),
            all.len() == fields.len(),
            forall|k: int| 0 <= k < fields.len() ==> all[k] == fields[k]@,
            cv.shape == crate::value::StructuralShape::Struct,
            cv.spec_fields() == fold_insert(all.subrange(0, i as int)),
        decreases fields.len() - i,
    {
        let val = crate::value::clone_value(&fields[i].value);
        cv.insert(fields[i].name.as_str(), val);
        proof {
            let pre = all.subrange(0, i as int);
            let cur = all.subrange(0, i as int + 1);
            assert(cur.drop_last() =~= pre);
            assert(cur.last() == all[i as int]);
            assert(fold_insert(cur) == crate::value::insert_field(fold_insert(pre), all[i as int]));
            assert(crate::value::FieldModel { name: fields@[i as int].name@, value: fields@[i as int].value@ }
                == all[i as int]);
        }
        i = i + 1;
    }
    proof {
        assert(all.subrange(0, fields.len() as int) =~= all);
    }
    cv
}

/// Builds the composite value for a registered type from its parsed fields:
/// named-field shapes fold by name, positional shapes keep the parsed order,
/// any other shape is an unreflected-component failure.
pub fn build_component(
    type_key: &str,
    type_info: &crate::registry::TypeDescriptor,
    fields: Vec<crate::value::FieldValue>,
) -> (r: Result<crate::value::CompositeValue, LoadPrefabError>)
    ensures
        match r {
            Ok(cv) => {
                &&& shape_supported(type_info.shape)
                &&& cv.shape == type_info.shape
                &&& cv.spec_fields() == build_fields_model(
                    type_info.shape,
                    crate::value::fields_views(fields),
                )
            },
            Err(e) => !shape_supported(type_info.shape) && e@ == ErrModel::Unreflected(type_key@),
        },
{
    if type_info.shape == crate::value::StructuralShape::Struct {
        Ok(build_struct_composite(fields))
    } else if type_info.shape == crate::value::StructuralShape::TupleStruct || type_info.shape
        == crate::value::StructuralShape::Tuple {
        Ok(crate::value::CompositeValue { shape: type_info.shape, fields })
    } else {
        Err(LoadPrefabError::UnreflectedComponent(type_key.to_owned()))
    }
}

/// Parses an integer range literal, as `sp_parse_range` says.
fn parse_range(s: &str, p: usize) -> (r: Result<(crate::value::DynamicValue, usize), LoadPrefabError>)
    requires
        p < s@.len(),
    ensures
        match (r, sp_parse_range(s@, p as int)) {
            (Ok((v, np)), Ok((vm, npm))) => v@ == vm && np == npm && p < np <= s@.len(),
            (Err(e), Err(em)) => e@ == em,
            _ => false,
        },
{
    let n = s.unicode_len();
    let p1 = skip_ws(s, p + 1);
    match parse_int(s, p1) {
        Err(e) => Err(e),
        Ok((a, q1)) => {
            let p2 = skip_ws(s, q1);
            if n - p2 < 2 || s.get_char(p2) != '.' || s.get_char(p2 + 1) != '.' {
                return Err(LoadPrefabError::ParseError(GrammarRule::Range, p2));
            }
            let p3 = skip_ws(s, p2 + 2);
            match parse_int(s, p3) {
                Err(e) => Err(e),
                Ok((b, q2)) => {
                    let p4 = skip_ws(s, q2);
                    if p4 >= n || s.get_char(p4) != ')' {
                        return Err(LoadPrefabError::ParseError(GrammarRule::Range, p4));
                    }
                    let rv = crate::value::RangeValue { start: a, end: b };
                    Ok((crate::value::DynamicValue::Range(rv), p4 + 1))
                },
            }
        },
    }
}

/// Parses the brace body of a `Vec3` literal, as `sp_parse_vec3_fields` says.
fn parse_vec3_fields(s: &str, pos: usize, acc: crate::value::Vector3Value) -> (r: Result<
    (crate::value::Vector3Value, usize),
    LoadPrefabError,
>)
    requires
        pos <= s@.len(),
    ensures
        match (r, sp_parse_vec3_fields(s@, pos as int, acc)) {
            (Ok((v, np)), Ok((vm, npm))) => v == vm && np == npm && pos < np <= s@.len(),
            (Err(e), Err(em)) => e@ == em,
            _ => false,
        },
    decreases s@.len() - pos,
{
    let n = s.unicode_len();
    if pos >= n {
        return Err(LoadPrefabError::ParseError(GrammarRule::Vec3, pos));
    }
    let p = skip_ws(s, pos);
    if p >= n {
        return Err(LoadPrefabError::ParseError(GrammarRule::Vec3, p));
    }
    if s.get_char(p) == '}' {
        return Ok((acc, p + 1));
    }
    let e = ident_end(s, p);
    if e == p {
        return Err(LoadPrefabError::ParseError(GrammarRule::Field, p));
    }
    let name = s.substring_char(p, e);
    let q = skip_ws(s, e);
    if !(q < n && s.get_char(q) == ':') {
        return Err(LoadPrefabError::ParseError(GrammarRule::Field, q));
    }
    let v0 = skip_ws(s, q + 1);
    if v0 >= n {
        return Err(LoadPrefabError::ParseError(GrammarRule::Float, v0));
    }
    let c0 = s.get_char(v0);
    let u0 = c0 as u32;
    if !(c0 == '-' || (48 <= u0 && u0 <= 57)) {
        return Err(LoadPrefabError::ParseError(GrammarRule::Float, v0));
    }
    match parse_number(s, v0) {
        Err(e2) => Err(e2),
        Ok((vm, np)) => {
            match vm {
                crate::value::DynamicValue::Float(d) => {
                    let acc2 = if crate::strutil::str_eq(name, "x") {
                        crate::value::Vector3Value { x: d, ..acc }
                    } else if crate::strutil::str_eq(name, "y") {
                        crate::value::Vector3Value { y: d, ..acc }
                    } else if crate::strutil::str_eq(name, "z") {
                        crate::value::Vector3Value { z: d, ..acc }
                    } else {
                        acc
                    };
                    let q3 = skip_ws(s, np);
                    if q3 >= n {
                        return Err(LoadPrefabError::ParseError(GrammarRule::Vec3, q3));
                    }
                    if s.get_char(q3) == '}' {
                        return Ok((acc2, q3 + 1));
                    }
                    if s.get_char(q3) == ',' {
                        let r2 = skip_ws(s, q3 + 1);
                        proof {
                            assert(adv(s@, pos as int, r2 as int) == r2 as int);
                        }
                        return parse_vec3_fields(s, r2, acc2);
                    }
                    Err(LoadPrefabError::ParseError(GrammarRule::Vec3, q3))
                },
                _ => {
                    let text = s.substring_char(v0, np).to_owned();
                    Err(LoadPrefabError::ValueParseError("f32".to_owned(), text))
                },
            }
        },
    }
}

/// Parses a `Vec3` literal after its keyword, as `sp_parse_vec3` says.
fn parse_vec3(s: &str, e: usize) -> (r: Result<(crate::value::DynamicValue, usize), LoadPrefabError>)
    requires
        e <= s@.len(),
    ensures
        match (r, sp_parse_vec3(s@, e as int)) {
            (Ok((v, np)), Ok((vm, npm))) => v@ == vm && np == npm && e < np <= s@.len(),
            (Err(e2), Err(em)) => e2@ == em,
            _ => false,
        },
{
    let n = s.unicode_len();
    let q = skip_ws(s, e);
    if !(q < n && s.get_char(q) == '{') {
        return Err(LoadPrefabError::ParseError(GrammarRule::Vec3, q));
    }
    let zero = crate::value::Decimal { neg: false, int_part: 0, frac_part: 0, frac_len: 0 };
    let start = crate::value::Vector3Value { x: zero, y: zero, z: zero };
    match parse_vec3_fields(s, q + 1, start) {
        Ok((v, np)) => Ok((crate::value::DynamicValue::Vector3(v), np)),
        Err(e2) => Err(e2),
    }
}

} // verus!

verus! {

/// Parses one value, as `sp_parse_value` says.
pub fn parse_value<C: crate::build_commands::BuildPrefabCommand>(
    s: &str,
    pos: usize,
    registry: &crate::registry::PrefabRegistry<C>,
) -> (r: Result<(crate::value::DynamicValue, usize), LoadPrefabError>)
    requires
        pos <= s@.len(),
        registry.wf(),
    ensures
        match (r, sp_parse_value(s@, pos as int, registry@.types)) {
            (Ok((v, np)), Ok((vm, npm))) => v@ == vm && np == npm && pos < np <= s@.len(),
            (Err(e), Err(em)) => e@ == em,
            _ => false,
        },
    decreases s@.len() - pos, 3int,
{
    let n = s.unicode_len();
    let p = skip_ws(s, pos);
    if p >= n {
        return Err(LoadPrefabError::ParseError(GrammarRule::Value, p));
    }
    let c = s.get_char(p);
    proof {
        lemma_skip_ws(s@, pos as int);
    }
    let u = c as u32;
    if c == '-' || (48 <= u && u <= 57) {
        parse_number(s, p)
    } else if c == '\'' {
        match parse_char(s, p) {
            Ok((b, np)) => Ok((crate::value::DynamicValue::Char(b), np)),
            Err(e) => Err(e),
        }
    } else if c == '"' {
        match parse_string(s, p) {
            Ok((t, np)) => Ok((crate::value::DynamicValue::Str(t), np)),
            Err(e) => Err(e),
        }
    } else if c == '[' {
        proof {
            assert(adv(s@, pos as int, p as int + 1) == p as int + 1);
        }
        match parse_array_items(s, p + 1, registry, Vec::new()) {
            Ok((items, np)) => {
                proof {
                    assert(crate::value::values_views(items) =~= crate::value::values_views_from(
                        items,
                        0,
                    ));
                }
                Ok((crate::value::DynamicValue::List(items), np))
            },
            Err(e) => Err(e),
        }
    } else if c == '(' {
        parse_range(s, p)
    } else if (65 <= u && u <= 90) || (97 <= u && u <= 122) || c == '_' {
        let e = ident_end(s, p);
        proof {
            lemma_ident_end(s@, p as int);
        }
        let name = s.substring_char(p, e);
        if crate::strutil::str_eq(name, "Color") {
            match parse_color(s, e) {
                Ok((col, np)) => Ok((crate::value::DynamicValue::Color(col), np)),
                Err(e2) => Err(e2),
            }
        } else if crate::strutil::str_eq(name, "shape") {
            match parse_shape(s, e) {
                Ok((sh, np)) => Ok((crate::value::DynamicValue::ShapeLiteral(sh), np)),
                Err(e2) => Err(e2),
            }
        } else if crate::strutil::str_eq(name, "Vec3") {
            match parse_vec3(s, e) {
                Ok((v, np)) => {
                    proof {
                        lemma_skip_ws(s@, pos as int);
                        lemma_ident_end(s@, p as int);
                    }
                    Ok((v, np))
                },
                Err(e2) => Err(e2),
            }
        } else {
            match parse_component(s, pos, registry) {
                Ok((pc, np)) => Ok((pc.value, np)),
                Err(e2) => Err(e2),
            }
        }
    } else {
        Err(LoadPrefabError::ParseError(GrammarRule::Value, p))
    }
}

/// Parses the elements of an array literal, as `sp_parse_array_items` says.
fn parse_array_items<C: crate::build_commands::BuildPrefabCommand>(
    s: &str,
    pos: usize,
    registry: &crate::registry::PrefabRegistry<C>,
    acc: Vec<crate::value::DynamicValue>,
) -> (r: Result<(Vec<crate::value::DynamicValue>, usize), LoadPrefabError>)
    requires
        pos <= s@.len(),
        registry.wf(),
    ensures
        match (r, sp_parse_array_items(
            s@,
            pos as int,
            registry@.types,
            crate::value::values_views(acc),
        )) {
            (Ok((items, np)), Ok((im, npm))) => crate::value::values_views(items) == im && np == npm
                && pos < np <= s@.len(),
            (Err(e), Err(em)) => e@ == em,
            _ => false,
        },
    decreases s@.len() - pos, 4int,
{
    let n = s.unicode_len();
    if pos >= n {
        return Err(LoadPrefabError::ParseError(GrammarRule::Value, pos));
    }
    match parse_value(s, pos, registry) {
        Err(e) => Err(e),
        Ok((v, np)) => {
            let ghost accv = crate::value::values_views(acc);
            let ghost vm = v@;
            let mut acc = acc;
            acc.push(v);
            proof {
                assert(crate::value::values_views(acc) =~= accv.push(vm));
            }
            let q = skip_ws(s, np);
            if q >= n {
                return Err(LoadPrefabError::ParseError(GrammarRule::Array, q));
            }
            if s.get_char(q) == ']' {
                return Ok((acc, q + 1));
            }
            if s.get_char(q) == ',' {
                let r2 = skip_ws(s, q + 1);
                if r2 < n && s.get_char(r2) == ']' {
                    return Ok((acc, r2 + 1));
                }
                proof {
                    assert(adv(s@, pos as int, r2 as int) == r2 as int);
                }
                return parse_array_items(s, r2, registry, acc);
            }
            Err(LoadPrefabError::ParseError(GrammarRule::Array, q))
        },
    }
}

/// Parses one `name: value` field, as `sp_parse_field` says.
pub fn parse_field<C: crate::build_commands::BuildPrefabCommand>(
    s: &str,
    pos: usize,
    registry: &crate::registry::PrefabRegistry<C>,
) -> (r: Result<(crate::value::FieldValue, usize), LoadPrefabError>)
    requires
        pos <= s@.len(),
        registry.wf(),
    ensures
        match (r, sp_parse_field(s@, pos as int, registry@.types)) {
            (Ok((f, np)), Ok((fm, npm))) => f@ == fm && np == npm && pos < np <= s@.len(),
            (Err(e), Err(em)) => e@ == em,
            _ => false,
        },
    decreases s@.len() - pos, 5int,
{
    let n = s.unicode_len();
    let p = skip_ws(s, pos);
    if p >= n {
        return Err(LoadPrefabError::ParseError(GrammarRule::Field, p));
    }
    let e = ident_end(s, p);
    if e == p {
        return Err(LoadPrefabError::ParseError(GrammarRule::Field, p));
    }
    let name = s.substring_char(p, e);
    let q = skip_ws(s, e);
    if !(q < n && s.get_char(q) == ':') {
        return Err(LoadPrefabError::ParseError(GrammarRule::Field, q));
    }
    proof {
        assert(adv(s@, pos as int, q as int + 1) == q as int + 1);
    }
    match parse_value(s, q + 1, registry) {
        Ok((v, np)) => Ok((crate::value::FieldValue { name: name.to_owned(), value: v }, np)),
        Err(e2) => Err(e2),
    }
}

/// Parses a field list up to its terminator, as `sp_parse_fields` says.
fn parse_fields<C: crate::build_commands::BuildPrefabCommand>(
    s: &str,
    pos: usize,
    registry: &crate::registry::PrefabRegistry<C>,
    term: char,
    acc: Vec<crate::value::FieldValue>,
) -> (r: Result<(Vec<crate::value::FieldValue>, usize), LoadPrefabError>)
    requires
        pos <= s@.len(),
        registry.wf(),
    ensures
        match (r, sp_parse_fields(
            s@,
            pos as int,
            registry@.types,
            term,
            crate::value::fields_views(acc),
        )) {
            (Ok((fs, np)), Ok((fsm, npm))) => crate::value::fields_views(fs) == fsm && np == npm
                && pos < np <= s@.len(),
            (Err(e), Err(em)) => e@ == em,
            _ => false,
        },
    decreases s@.len() - pos, 6int,
{
    let n = s.unicode_len();
    if pos >= n {
        return Err(LoadPrefabError::ParseError(GrammarRule::Field, pos));
    }
    match parse_field(s, pos, registry) {
        Err(e) => Err(e),
        Ok((f, np)) => {
            let ghost accv = crate::value::fields_views(acc);
            let ghost fm = f@;
            let mut acc = acc;
            acc.push(f);
            proof {
                assert(crate::value::fields_views(acc) =~= accv.push(fm));
            }
            let q = skip_ws(s, np);
            if q >= n {
                return Err(LoadPrefabError::ParseError(GrammarRule::Field, q));
            }
            if s.get_char(q) == term {
                return Ok((acc, q + 1));
            }
            if s.get_char(q) == ',' {
                let r2 = skip_ws(s, q + 1);
                if r2 < n && s.get_char(r2) == term {
                    return Ok((acc, r2 + 1));
                }
                proof {
                    assert(adv(s@, pos as int, r2 as int) == r2 as int);
                }
                return parse_fields(s, r2, registry, term, acc);
            }
            Err(LoadPrefabError::ParseError(GrammarRule::Field, q))
        },
    }
}

/// Parses one component, as `sp_parse_component` says.  On success every
/// referenced type name is registered.
pub fn parse_component<C: crate::build_commands::BuildPrefabCommand>(
    s: &str,
    pos: usize,
    registry: &crate::registry::PrefabRegistry<C>,
) -> (r: Result<(crate::prefab::PrefabComponent, usize), LoadPrefabError>)
    requires
        pos <= s@.len(),
        registry.wf(),
    ensures
        match (r, sp_parse_component(s@, pos as int, registry@.types)) {
            (Ok((pc, np)), Ok(((tn, vm), npm))) => pc.type_key@ == tn && pc.value@ == vm && np
                == npm && pos < np <= s@.len() && registry@.types.contains_key(tn),
            (Err(e), Err(em)) => e@ == em,
            _ => false,
        },
    decreases s@.len() - pos, 2int,
{
    let n = s.unicode_len();
    let p = skip_ws(s, pos);
    if p >= n {
        return Err(LoadPrefabError::ParseError(GrammarRule::Component, p));
    }
    let e = ident_end(s, p);
    if e == p {
        return Err(LoadPrefabError::ParseError(GrammarRule::Component, p));
    }
    let name = s.substring_char(p, e);
    match registry.get_type_data(name) {
        None => Err(LoadPrefabError::UnregisteredComponent(name.to_owned())),
        Some(td) => {
            let shape = td.shape;
            let supported = shape == crate::value::StructuralShape::Struct || shape
                == crate::value::StructuralShape::TupleStruct || shape
                == crate::value::StructuralShape::Tuple;
            if !supported {
                return Err(LoadPrefabError::UnreflectedComponent(name.to_owned()));
            }
            let q = skip_ws(s, e);
            if q < n && s.get_char(q) == '{' {
                let empty_acc: Vec<crate::value::FieldValue> = Vec::new();
                proof {
                    assert(adv(s@, pos as int, q as int + 1) == q as int + 1);
                    assert(crate::value::fields_views(empty_acc) =~= Seq::<
                        crate::value::FieldModel,
                    >::empty());
                }
                match parse_fields(s, q + 1, registry, '}', empty_acc) {
                    Ok((fs, np)) => {
                        match build_component(name, td, fs) {
                            Ok(cv) => Ok(
                                (
                                    crate::prefab::PrefabComponent {
                                        type_key: name.to_owned(),
                                        value: crate::value::DynamicValue::Composite(cv),
                                    },
                                    np,
                                ),
                            ),
                            Err(err) => {
                                proof {
                                    assert(false);
                                }
                                Err(err)
                            },
                        }
                    },
                    Err(e2) => Err(e2),
                }
            } else {
                let cv = crate::value::CompositeValue::empty(shape);
                proof {
                    assert(cv.spec_fields() == Seq::<crate::value::FieldModel>::empty());
                }
                Ok(
                    (
                        crate::prefab::PrefabComponent {
                            type_key: name.to_owned(),
                            value: crate::value::DynamicValue::Composite(cv),
                        },
                        e,
                    ),
                )
            }
        },
    }
}

} // verus!

verus! {

/// Parses a color literal after the `Color` keyword, as `sp_parse_color` says.
fn parse_color(s: &str, e: usize) -> (r: Result<(crate::value::Color, usize), LoadPrefabError>)
    requires
        e <= s@.len(),
    ensures
        match (r, sp_parse_color(s@, e as int)) {
            (Ok((c, np)), Ok((cm, npm))) => c == cm && np == npm && e < np <= s@.len(),
            (Err(e2), Err(em)) => e2@ == em,
            _ => false,
        },
{
    let n = s.unicode_len();
    if n - e < 2 || s.get_char(e) != ':' || s.get_char(e + 1) != ':' {
        return Err(LoadPrefabError::ParseError(GrammarRule::ColorLit, e));
    }
    let n0 = e + 2;
    let n1 = ident_end(s, n0);
    let name = s.substring_char(n0, n1);
    if crate::strutil::str_eq(name, "RED") {
        Ok((crate::value::Color::Red, n1))
    } else if crate::strutil::str_eq(name, "GREEN") {
        Ok((crate::value::Color::Green, n1))
    } else if crate::strutil::str_eq(name, "BLUE") {
        Ok((crate::value::Color::Blue, n1))
    } else if crate::strutil::str_eq(name, "YELLOW") {
        Ok((crate::value::Color::Yellow, n1))
    } else if crate::strutil::str_eq(name, "PINK") {
        Ok((crate::value::Color::Pink, n1))
    } else {
        Err(LoadPrefabError::ParseError(GrammarRule::ColorLit, n0))
    }
}

/// Parses a shape literal after the `shape` keyword, as `sp_parse_shape` says.
fn parse_shape(s: &str, e: usize) -> (r: Result<(String, usize), LoadPrefabError>)
    requires
        e <= s@.len(),
    ensures
        match (r, sp_parse_shape(s@, e as int)) {
            (Ok((t, np)), Ok((tm, npm))) => t@ == tm && np == npm && e < np <= s@.len(),
            (Err(e2), Err(em)) => e2@ == em,
            _ => false,
        },
{
    let n = s.unicode_len();
    if n - e < 2 || s.get_char(e) != ':' || s.get_char(e + 1) != ':' {
        return Err(LoadPrefabError::ParseError(GrammarRule::ShapeLit, e));
    }
    let n0 = e + 2;
    let n1 = ident_end(s, n0);
    let name = s.substring_char(n0, n1);
    if crate::strutil::str_eq(name, "Cube") || crate::strutil::str_eq(name, "Plane")
        || crate::strutil::str_eq(name, "Quad") {
        Ok((name.to_owned(), n1))
    } else {
        Err(LoadPrefabError::ParseError(GrammarRule::ShapeLit, n0))
    }
}

} // verus!

verus! {

/// Parses one command call, as `sp_parse_command` says.  On success the
/// command's name is registered.
pub fn parse_command<C: crate::build_commands::BuildPrefabCommand>(
    s: &str,
    pos: usize,
    registry: &crate::registry::PrefabRegistry<C>,
) -> (r: Result<(crate::prefab::PrefabCommandData, usize), LoadPrefabError>)
    requires
        pos <= s@.len(),
        registry.wf(),
    ensures
        match (r, sp_parse_command(
            s@,
            pos as int,
            registry@.types,
            registry@.commands.dom(),
        )) {
            (Ok((cd, np)), Ok(((nm, props), npm))) => cd.name@ == nm && (match (
                &cd.properties,
                props,
            ) {
                (Some(cv), Some(pm)) => cv@ == pm,
                (None, None) => true,
                _ => false,
            }) && np == npm && pos < np <= s@.len() && registry@.commands.dom().contains(nm),
            (Err(e), Err(em)) => e@ == em,
            _ => false,
        },
    decreases s@.len() - pos, 7int,
{
    let n = s.unicode_len();
    let p = skip_ws(s, pos);
    proof {
        lemma_skip_ws(s@, pos as int);
    }
    if p >= n {
        return Err(LoadPrefabError::ParseError(GrammarRule::Command, p));
    }
    let e = ident_end(s, p);
    proof {
        lemma_ident_end(s@, p as int);
    }
    if e == p {
        return Err(LoadPrefabError::ParseError(GrammarRule::Command, p));
    }
    let name = s.substring_char(p, e);
    if !(e < n && s.get_char(e) == '!') {
        return Err(LoadPrefabError::ParseError(GrammarRule::Command, e));
    }
    if registry.get_build_command(name).is_none() {
        return Err(LoadPrefabError::UnregisteredCommand(name.to_owned()));
    }
    let q = skip_ws(s, e + 1);
    if !(q < n && s.get_char(q) == '(') {
        return Err(LoadPrefabError::ParseError(GrammarRule::Command, q));
    }
    let r2 = skip_ws(s, q + 1);
    if r2 >= n {
        return Err(LoadPrefabError::ParseError(GrammarRule::Command, r2));
    }
    if s.get_char(r2) == ')' {
        return Ok(
            (
                crate::prefab::PrefabCommandData { name: name.to_owned(), properties: None },
                r2 + 1,
            ),
        );
    }
    let c2 = s.get_char(r2);
    let u2 = c2 as u32;
    if (65 <= u2 && u2 <= 90) || (97 <= u2 && u2 <= 122) || c2 == '_' {
        let e2 = ident_end(s, r2);
        let q2 = skip_ws(s, e2);
        if q2 < n && s.get_char(q2) == '{' {
            let empty_acc: Vec<crate::value::FieldValue> = Vec::new();
            proof {
                assert(adv(s@, pos as int, q2 as int + 1) == q2 as int + 1);
                assert(crate::value::fields_views(empty_acc) =~= Seq::<
                    crate::value::FieldModel,
                >::empty());
            }
            match parse_fields(s, q2 + 1, registry, '}', empty_acc) {
                Err(e3) => Err(e3),
                Ok((fs, np)) => {
                    let q3 = skip_ws(s, np);
                    if q3 < n && s.get_char(q3) == ')' {
                        let cv = build_struct_composite(fs);
                        Ok(
                            (
                                crate::prefab::PrefabCommandData {
                                    name: name.to_owned(),
                                    properties: Some(cv),
                                },
                                q3 + 1,
                            ),
                        )
                    } else {
                        Err(LoadPrefabError::ParseError(GrammarRule::Command, q3))
                    }
                },
            }
        } else {
            let empty_acc: Vec<crate::value::FieldValue> = Vec::new();
            proof {
                assert(adv(s@, pos as int, r2 as int) == r2 as int);
                assert(crate::value::fields_views(empty_acc) =~= Seq::<
                    crate::value::FieldModel,
                >::empty());
            }
            match parse_fields(s, r2, registry, ')', empty_acc) {
                Err(e3) => Err(e3),
                Ok((fs, np)) => {
                    let cv = build_struct_composite(fs);
                    Ok(
                        (
                            crate::prefab::PrefabCommandData {
                                name: name.to_owned(),
                                properties: Some(cv),
                            },
                            np,
                        ),
                    )
                },
            }
        }
    } else {
        Err(LoadPrefabError::ParseError(GrammarRule::Command, r2))
    }
}

/// Parses one build step, as `sp_parse_step` says.  On success the step only
/// names registered types and commands.
pub fn parse_step<C: crate::build_commands::BuildPrefabCommand>(
    s: &str,
    pos: usize,
    registry: &crate::registry::PrefabRegistry<C>,
) -> (r: Result<(crate::prefab::PrefabBuildStep, usize), LoadPrefabError>)
    requires
        pos <= s@.len(),
        registry.wf(),
    ensures
        match (r, sp_parse_step(s@, pos as int, registry@.types, registry@.commands.dom())) {
            (Ok((st, np)), Ok((sm, npm))) => st@ == sm && np == npm && pos < np <= s@.len()
                && step_registered(sm, registry@.types, registry@.commands.dom()),
            (Err(e), Err(em)) => e@ == em,
            _ => false,
        },
    decreases s@.len() - pos, 8int,
{
    let n = s.unicode_len();
    let p = skip_ws(s, pos);
    proof {
        lemma_skip_ws(s@, pos as int);
    }
    if p >= n {
        return Err(LoadPrefabError::ParseError(GrammarRule::Step, p));
    }
    let c = s.get_char(p);
    let u = c as u32;
    if !((65 <= u && u <= 90) || (97 <= u && u <= 122) || c == '_') {
        return Err(LoadPrefabError::ParseError(GrammarRule::Step, p));
    }
    let e = ident_end(s, p);
    proof {
        lemma_ident_end(s@, p as int);
    }
    let name = s.substring_char(p, e);
    if e < n && s.get_char(e) == '!' {
        if crate::strutil::str_eq(name, "load") {
            let q = skip_ws(s, e + 1);
            if !(q < n && s.get_char(q) == '(') {
                return Err(LoadPrefabError::ParseError(GrammarRule::Path, q));
            }
            let r2 = skip_ws(s, q + 1);
            if !(r2 < n && s.get_char(r2) == '"') {
                return Err(LoadPrefabError::ParseError(GrammarRule::Path, r2));
            }
            match parse_string(s, r2) {
                Err(e2) => Err(e2),
                Ok((path, np)) => {
                    let q2 = skip_ws(s, np);
                    if !(q2 < n && s.get_char(q2) == ')') {
                        return Err(LoadPrefabError::ParseError(GrammarRule::Path, q2));
                    }
                    Ok((crate::prefab::PrefabBuildStep::LoadNestedPrefab(path), q2 + 1))
                },
            }
        } else {
            match parse_command(s, pos, registry) {
                Ok((cd, np)) => Ok((crate::prefab::PrefabBuildStep::RunCommand(cd), np)),
                Err(e2) => Err(e2),
            }
        }
    } else {
        match parse_component(s, pos, registry) {
            Ok((pc, np)) => Ok((crate::prefab::PrefabBuildStep::AddComponent(pc), np)),
            Err(e2) => Err(e2),
        }
    }
}

/// Parses the document's step list, as `sp_parse_steps` says.
fn parse_steps<C: crate::build_commands::BuildPrefabCommand>(
    s: &str,
    pos: usize,
    registry: &crate::registry::PrefabRegistry<C>,
    acc: Vec<crate::prefab::PrefabBuildStep>,
) -> (r: Result<(Vec<crate::prefab::PrefabBuildStep>, usize), LoadPrefabError>)
    requires
        pos <= s@.len(),
        registry.wf(),
        forall|i: int|
            0 <= i < acc.len() ==> step_registered(
                #[trigger] crate::prefab::steps_views(acc)[i],
                registry@.types,
                registry@.commands.dom(),
            ),
    ensures
        match (r, sp_parse_steps(
            s@,
            pos as int,
            registry@.types,
            registry@.commands.dom(),
            crate::prefab::steps_views(acc),
        )) {
            (Ok((steps, np)), Ok((sm, npm))) => crate::prefab::steps_views(steps) == sm && np == npm
                && pos < np <= s@.len() && (forall|i: int|
                0 <= i < sm.len() ==> step_registered(
                    #[trigger] sm[i],
                    registry@.types,
                    registry@.commands.dom(),
                )),
            (Err(e), Err(em)) => e@ == em,
            _ => false,
        },
    decreases s@.len() - pos, 9int,
{
    let n = s.unicode_len();
    if pos >= n {
        return Err(LoadPrefabError::ParseError(GrammarRule::Step, pos));
    }
    match parse_step(s, pos, registry) {
        Err(e) => Err(e),
        Ok((st, np)) => {
            let ghost accv = crate::prefab::steps_views(acc);
            let ghost sm = st@;
            let mut acc = acc;
            acc.push(st);
            proof {
                assert(crate::prefab::steps_views(acc) =~= accv.push(sm));
            }
            let q = skip_ws(s, np);
            if q >= n {
                return Err(LoadPrefabError::ParseError(GrammarRule::Prefab, q));
            }
            if s.get_char(q) == '}' {
                return Ok((acc, q + 1));
            }
            if s.get_char(q) == ',' {
                let r2 = skip_ws(s, q + 1);
                if r2 < n && s.get_char(r2) == '}' {
                    return Ok((acc, r2 + 1));
                }
                proof {
                    assert(adv(s@, pos as int, r2 as int) == r2 as int);
                }
                return parse_steps(s, r2, registry, acc);
            }
            Err(LoadPrefabError::ParseError(GrammarRule::Prefab, q))
        },
    }
}

/// Parses a whole prefab document against the registry, as `sp_parse_prefab`
/// says.  A document parses only if every type and command name it references
/// is registered; on any error no document is produced.
pub fn parse_prefab_string<C: crate::build_commands::BuildPrefabCommand>(
    input: &str,
    registry: &crate::registry::PrefabRegistry<C>,
) -> (r: Result<crate::prefab::Prefab, LoadPrefabError>)
    requires
        registry.wf(),
    ensures
        match (r, sp_parse_prefab(input@, registry@.types, registry@.commands.dom())) {
            (Ok(doc), Ok(dm)) => doc@ == dm && (forall|i: int|
                0 <= i < dm.steps.len() ==> step_registered(
                    #[trigger] dm.steps[i],
                    registry@.types,
                    registry@.commands.dom(),
                )),
            (Err(e), Err(em)) => e@ == em,
            _ => false,
        },
{
    let n = input.unicode_len();
    let p = skip_ws(input, 0);
    proof {
        lemma_skip_ws(input@, 0);
    }
    if p >= n {
        return Err(LoadPrefabError::ParseError(GrammarRule::Prefab, p));
    }
    let c = input.get_char(p);
    let u = c as u32;
    let named = (65 <= u && u <= 90) || (97 <= u && u <= 122) || c == '_';
    let e = ident_end(input, p);
    proof {
        lemma_ident_end(input@, p as int);
    }
    let name: Option<String> = if named {
        Some(input.substring_char(p, e).to_owned())
    } else {
        None
    };
    let q = if named {
        skip_ws(input, e)
    } else {
        p
    };
    if !(q < n && input.get_char(q) == '{') {
        return Err(LoadPrefabError::ParseError(GrammarRule::Prefab, q));
    }
    let empty_acc: Vec<crate::prefab::PrefabBuildStep> = Vec::new();
    proof {
        assert(crate::prefab::steps_views(empty_acc) =~= Seq::<
            crate::prefab::StepModel,
        >::empty());
    }
    match parse_steps(input, q + 1, registry, empty_acc) {
        Err(e2) => Err(e2),
        Ok((steps, np)) => {
            let t = skip_ws(input, np);
            if t < n {
                return Err(LoadPrefabError::ParseError(GrammarRule::Prefab, t));
            }
            Ok(crate::prefab::Prefab { name, steps })
        },
    }
}

} // verus!
