//! The wire data model: a JSON value type, its exact renderer, and its
//! parser. Number values keep their raw lexeme, so no value is ever
//! approximated; string contents are stored decoded.

use vstd::prelude::*;
use vstd::string::*;
use crate::text::is_digit;

verus! {

/// Specification-level JSON value.
pub enum JsonV {
    Null,
    Bool(bool),
    /// The raw number lexeme, e.g. `-12.5e3`.
    Num(Seq<char>),
    /// Decoded string contents.
    Str(Seq<char>),
    Arr(Seq<JsonV>),
    Obj(Seq<(Seq<char>, JsonV)>),
}

/// Executable JSON value.
pub enum Json {
    Null,
    Bool(bool),
    /// The raw number lexeme, e.g. `-12.5e3`.
    Num(Vec<char>),
    /// Decoded string contents.
    Str(String),
    Arr(Vec<Json>),
    Obj(Vec<(String, Json)>),
}

/// The specification value of an executable JSON value.
pub open spec fn jv(j: Json) -> JsonV
    decreases j via jv_dec
{
    match j {
        Json::Null => JsonV::Null,
        Json::Bool(b) => JsonV::Bool(b),
        Json::Num(v) => JsonV::Num(v@),
        Json::Str(s) => JsonV::Str(s@),
        Json::Arr(items) => JsonV::Arr(jv_seq(items@)),
        Json::Obj(members) => JsonV::Obj(jv_members(members@)),
    }
}

/// The specification values of a sequence of array elements.
pub open spec fn jv_seq(s: Seq<Json>) -> Seq<JsonV>
    decreases s via jv_seq_dec
{
    if s.len() == 0 {
        Seq::empty()
    } else {
        seq![jv(s[0])] + jv_seq(s.drop_first())
    }
}

/// The specification values of a sequence of object members.
pub open spec fn jv_members(s: Seq<(String, Json)>) -> Seq<(Seq<char>, JsonV)>
    decreases s via jv_members_dec
{
    if s.len() == 0 {
        Seq::empty()
    } else {
        seq![(s[0].0@, jv(s[0].1))] + jv_members(s.drop_first())
    }
}

#[via_fn]
proof fn jv_dec(j: Json) {
    broadcast use vstd::std_specs::vec::group_vec_axioms;

    match j {
        Json::Arr(items) => {
            assert(decreases_to!(items => items@));
            assert(decreases_to!(j => items@));
        },
        Json::Obj(members) => {
            assert(decreases_to!(members => members@));
            assert(decreases_to!(j => members@));
        },
        _ => {},
    }
}

#[via_fn]
proof fn jv_seq_dec(s: Seq<Json>) {
    broadcast use vstd::seq::group_seq_axioms;

    if s.len() > 0 {
        assert(decreases_to!(s => s[0]));
        assert(s.drop_first() == s.subrange(1, s.len() as int));
        vstd::seq::axiom_seq_subrange_decreases(s, 1, s.len() as int);
        assert(decreases_to!(s => s.drop_first()));
    }
}

#[via_fn]
proof fn jv_members_dec(s: Seq<(String, Json)>) {
    broadcast use vstd::seq::group_seq_axioms;

    if s.len() > 0 {
        assert(decreases_to!(s => s[0]));
        assert(decreases_to!(s[0] => s[0].1));
        assert(decreases_to!(s => s[0].1));
        assert(s.drop_first() == s.subrange(1, s.len() as int));
        vstd::seq::axiom_seq_subrange_decreases(s, 1, s.len() as int);
        assert(decreases_to!(s => s.drop_first()));
    }
}

/// `jv_seq` maps `jv` over the sequence, element by element.
pub proof fn lemma_jv_seq(s: Seq<Json>)
    ensures
        jv_seq(s).len() == s.len(),
        forall|i: int| 0 <= i < s.len() ==> jv_seq(s)[i] == jv(#[trigger] s[i]),
    decreases s.len(),
{
    if s.len() > 0 {
        lemma_jv_seq(s.drop_first());
        assert forall|i: int| 0 <= i < s.len() implies jv_seq(s)[i] == jv(#[trigger] s[i]) by {
            if i > 0 {
                assert(jv_seq(s)[i] == jv_seq(s.drop_first())[i - 1]);
                assert(s.drop_first()[i - 1] == s[i]);
            }
        }
    }
}

/// `jv_members` maps key views and `jv` over the members, element by element.
pub proof fn lemma_jv_members(s: Seq<(String, Json)>)
    ensures
        jv_members(s).len() == s.len(),
        forall|i: int|
            0 <= i < s.len() ==> jv_members(s)[i] == ((#[trigger] s[i]).0@, jv(s[i].1)),
    decreases s.len(),
{
    if s.len() > 0 {
        lemma_jv_members(s.drop_first());
        assert forall|i: int|
            0 <= i < s.len() implies jv_members(s)[i] == ((#[trigger] s[i]).0@, jv(s[i].1)) by {
            if i > 0 {
                assert(jv_members(s)[i] == jv_members(s.drop_first())[i - 1]);
                assert(s.drop_first()[i - 1] == s[i]);
            }
        }
    }
}

impl View for Json {
    type V = JsonV;

    open spec fn view(&self) -> JsonV {
        jv(*self)
    }
}

/// Whether `c` may occur in a number lexeme.
pub open spec fn is_num_char(c: char) -> bool {
    is_digit(c) || c == '-' || c == '+' || c == '.' || c == 'e' || c == 'E'
}

/// The first position at or after `i` that does not hold a digit.
pub open spec fn digits_end(s: Seq<char>, i: int) -> int
    decreases s.len() - i,
{
    if 0 <= i < s.len() && is_digit(s[i]) {
        digits_end(s, i + 1)
    } else {
        i
    }
}

/// Whether `s` is a valid JSON number lexeme:
/// `-? (0 | [1-9][0-9]*) (. [0-9]+)? ([eE] [+-]? [0-9]+)?`.
pub open spec fn is_number_lexeme(s: Seq<char>) -> bool {
    let i0: int = if s.len() > 0 && s[0] == '-' { 1 } else { 0 };
    let i1 = digits_end(s, i0);
    &&& i1 > i0
    &&& (s[i0] == '0' ==> i1 == i0 + 1)
    &&& exp_part_ok(s, frac_start(s, i1))
}

/// The position after the optional fraction part that starts at `i1`,
/// or `-1` if a fraction is begun but malformed.
pub open spec fn frac_start(s: Seq<char>, i1: int) -> int {
    if i1 < s.len() && s[i1] == '.' {
        let e = digits_end(s, i1 + 1);
        if e > i1 + 1 {
            e
        } else {
            -1
        }
    } else {
        i1
    }
}

/// Whether the optional exponent part starting at `i2` is well formed and
/// runs to the end of `s`.
pub open spec fn exp_part_ok(s: Seq<char>, i2: int) -> bool {
    if i2 < 0 {
        false
    } else if i2 == s.len() {
        true
    } else if s[i2] == 'e' || s[i2] == 'E' {
        let i3: int = if i2 + 1 < s.len() && (s[i2 + 1] == '+' || s[i2 + 1] == '-') {
            i2 + 2
        } else {
            i2 + 1
        };
        digits_end(s, i3) == s.len() && s.len() > i3
    } else {
        false
    }
}

/// A well-formed JSON value: every number lexeme obeys the number grammar,
/// and no string holds an unpaired surrogate (strings of `char` cannot).
pub open spec fn wf_json(v: JsonV) -> bool
    decreases v,
{
    match v {
        JsonV::Null => true,
        JsonV::Bool(_) => true,
        JsonV::Num(lex) => is_number_lexeme(lex),
        JsonV::Str(_) => true,
        JsonV::Arr(items) => forall|i: int|
            0 <= i < items.len() ==> wf_json(#[trigger] items[i]),
        JsonV::Obj(members) => forall|i: int|
            0 <= i < members.len() ==> wf_json(#[trigger] members[i].1),
    }
}

/// The hexadecimal digit character for a value below 16.
pub open spec fn hex_char(d: nat) -> char {
    if d < 10 {
        crate::text::digit_char(d)
    } else if d == 10 {
        'a'
    } else if d == 11 {
        'b'
    } else if d == 12 {
        'c'
    } else if d == 13 {
        'd'
    } else if d == 14 {
        'e'
    } else {
        'f'
    }
}

pub fn hex_char_exec(d: u32) -> (c: char)
    requires
        d < 16,
    ensures
        c == hex_char(d as nat),
{
    if d < 10 {
        crate::text::digit_char_exec(d as u64)
    } else if d == 10 {
        'a'
    } else if d == 11 {
        'b'
    } else if d == 12 {
        'c'
    } else if d == 13 {
        'd'
    } else if d == 14 {
        'e'
    } else {
        'f'
    }
}

/// The escape sequence (or the character itself) used when rendering `c`
/// inside a JSON string.
pub open spec fn esc_char(c: char) -> Seq<char> {
    if c == '"' {
        seq!['\\', '"']
    } else if c == '\\' {
        seq!['\\', '\\']
    } else if (c as u32) < 0x20 {
        seq!['\\', 'u', '0', '0', hex_char((c as u32 / 16) as nat), hex_char((c as u32 % 16) as nat)]
    } else {
        seq![c]
    }
}

/// The escaped form of a string's contents.
pub open spec fn esc_str(s: Seq<char>) -> Seq<char>
    decreases s.len(),
{
    if s.len() == 0 {
        Seq::empty()
    } else {
        esc_char(s[0]) + esc_str(s.drop_first())
    }
}

/// The exact text that rendering produces for `v` (no whitespace).
pub open spec fn render(v: JsonV) -> Seq<char>
    decreases v, 1int,
{
    match v {
        JsonV::Null => seq!['n', 'u', 'l', 'l'],
        JsonV::Bool(b) => if b {
            seq!['t', 'r', 'u', 'e']
        } else {
            seq!['f', 'a', 'l', 's', 'e']
        },
        JsonV::Num(lex) => lex,
        JsonV::Str(s) => seq!['"'] + esc_str(s) + seq!['"'],
        JsonV::Arr(items) => seq!['['] + render_items(items) + seq![']'],
        JsonV::Obj(members) => seq!['{'] + render_members(members) + seq!['}'],
    }
}

/// Comma-joined rendering of array elements.
pub open spec fn render_items(items: Seq<JsonV>) -> Seq<char>
    decreases items, 0int,
{
    if items.len() == 0 {
        Seq::empty()
    } else if items.len() == 1 {
        render(items[0])
    } else {
        render(items[0]) + seq![','] + render_items(items.drop_first())
    }
}

/// Comma-joined rendering of object members.
pub open spec fn render_members(members: Seq<(Seq<char>, JsonV)>) -> Seq<char>
    decreases members, 0int,
{
    if members.len() == 0 {
        Seq::empty()
    } else {
        let head = seq!['"'] + esc_str(members[0].0) + seq!['"', ':'] + render(members[0].1);
        if members.len() == 1 {
            head
        } else {
            head + seq![','] + render_members(members.drop_first())
        }
    }
}

/// Appends the escape sequence for one character.
fn push_esc_char(c: char, out: &mut Vec<char>)
    ensures
        final(out)@ == old(out)@ + esc_char(c),
{
    if c == '"' {
        out.push('\\');
        out.push('"');
        assert(out@ =~= old(out)@ + esc_char(c));
    } else if c == '\\' {
        out.push('\\');
        out.push('\\');
        assert(out@ =~= old(out)@ + esc_char(c));
    } else if (c as u32) < 0x20 {
        out.push('\\');
        out.push('u');
        out.push('0');
        out.push('0');
        out.push(hex_char_exec((c as u32) / 16));
        out.push(hex_char_exec((c as u32) % 16));
        assert(out@ =~= old(out)@ + esc_char(c));
    } else {
        out.push(c);
        assert(out@ =~= old(out)@ + esc_char(c));
    }
}

/// Appends the escaped contents of `s`.
fn push_esc_str(s: &str, out: &mut Vec<char>)
    ensures
        final(out)@ == old(out)@ + esc_str(s@),
{
    let n = s.unicode_len();
    let mut i: usize = 0;
    while i < n
        invariant
            n == s@.len(),
            i <= n,
            out@ == old(out)@ + esc_str(s@.subrange(0, i as int)),
        decreases n - i,
    {
        let ghost pre = out@;
        push_esc_char(s.get_char(i), out);
        proof {
            lemma_esc_str_snoc(s@, i as int);
        }
        i += 1;
    }
    proof {
        assert(s@.subrange(0, n as int) =~= s@);
    }
}

/// Escaping a one-longer prefix appends the escape of the next character.
proof fn lemma_esc_str_snoc(s: Seq<char>, i: int)
    requires
        0 <= i < s.len(),
    ensures
        esc_str(s.subrange(0, i + 1)) == esc_str(s.subrange(0, i)) + esc_char(s[i]),
    decreases i,
{
    let a = s.subrange(0, i);
    let b = s.subrange(0, i + 1);
    if i == 0 {
        assert(b =~= seq![s[0]]);
        assert(b.drop_first() =~= Seq::<char>::empty());
        assert(esc_str(b) == esc_char(s[0]) + esc_str(b.drop_first()));
        assert(a =~= Seq::<char>::empty());
        assert(esc_str(b) =~= esc_str(a) + esc_char(s[i]));
    } else {
        lemma_esc_str_snoc(s.subrange(1, s.len() as int), i - 1);
        assert(a.drop_first() =~= s.subrange(1, s.len() as int).subrange(0, i - 1));
        assert(b.drop_first() =~= s.subrange(1, s.len() as int).subrange(0, i));
        assert(esc_str(b) == esc_char(b[0]) + esc_str(b.drop_first()));
        assert(esc_str(a) == esc_char(a[0]) + esc_str(a.drop_first()));
        assert(a[0] == s[0] && b[0] == s[0]);
        assert(s.subrange(1, s.len() as int)[i - 1] == s[i]);
        assert(esc_str(b) =~= esc_str(a) + esc_char(s[i]));
    }
}

impl Json {
    /// Appends the rendered text of this value to `out`.
    pub fn render_into(&self, out: &mut Vec<char>)
        ensures
            final(out)@ == old(out)@ + render(self@),
        decreases self,
    {
        match self {
            Json::Null => {
                out.push('n');
                out.push('u');
                out.push('l');
                out.push('l');
                assert(out@ =~= old(out)@ + render(self@));
            },
            Json::Bool(b) => {
                if *b {
                    out.push('t');
                    out.push('r');
                    out.push('u');
                    out.push('e');
                } else {
                    out.push('f');
                    out.push('a');
                    out.push('l');
                    out.push('s');
                    out.push('e');
                }
                assert(out@ =~= old(out)@ + render(self@));
            },
            Json::Num(lex) => {
                let mut k: usize = 0;
                while k < lex.len()
                    invariant
                        k <= lex@.len(),
                        out@ == old(out)@ + lex@.subrange(0, k as int),
                    decreases lex@.len() - k,
                {
                    out.push(lex[k]);
                    assert(out@ =~= old(out)@ + lex@.subrange(0, (k + 1) as int));
                    k += 1;
                }
                assert(lex@.subrange(0, lex@.len() as int) =~= lex@);
            },
            Json::Str(s) => {
                out.push('"');
                push_esc_str(s.as_str(), out);
                out.push('"');
                assert(out@ =~= old(out)@ + render(self@));
            },
            Json::Arr(items) => {
                out.push('[');
                let ghost iv = jv_seq(items@);
                proof {
                    lemma_jv_seq(items@);
                }
                let mut k: usize = 0;
                while k < items.len()
                    invariant
                        k <= items@.len(),
                        iv == jv_seq(items@),
                        self == Json::Arr(*items),
                        out@ == old(out)@ + seq!['['] + render_items(iv.take(k as int)),
                    decreases items@.len() - k,
                {
                    proof {
                        lemma_jv_seq(items@);
                    }
                    if k > 0 {
                        out.push(',');
                    }
                    proof {
                        broadcast use vstd::std_specs::vec::axiom_vec_index_decreases;
                        assert(decreases_to!(*self => (*self)->Arr_0));
                        assert((*self)->Arr_0 == *items);
                        assert(decreases_to!(*items => (*items)[k as int]));
                        assert(decreases_to!(*self => (*items)[k as int]));
                    }
                    items[k].render_into(out);
                    proof {
                        lemma_render_items_snoc(iv, k as int);
                        assert(iv.take(k as int + 1) =~= iv.take(k as int).push(iv[k as int]));
                        if k > 0 {
                            assert(out@ =~= old(out)@ + seq!['['] + render_items(iv.take(k as int + 1)));
                        } else {
                            assert(out@ =~= old(out)@ + seq!['['] + render_items(iv.take(1)));
                        }
                    }
                    k += 1;
                }
                out.push(']');
                proof {
                    assert(iv.take(items@.len() as int) =~= iv);
                    assert(out@ =~= old(out)@ + render(self@));
                }
            },
            Json::Obj(members) => {
                out.push('{');
                let ghost mv = jv_members(members@);
                proof {
                    lemma_jv_members(members@);
                }
                let mut k: usize = 0;
                while k < members.len()
                    invariant
                        k <= members@.len(),
                        mv == jv_members(members@),
                        self == Json::Obj(*members),
                        out@ == old(out)@ + seq!['{'] + render_members(mv.take(k as int)),
                    decreases members@.len() - k,
                {
                    proof {
                        lemma_jv_members(members@);
                    }
                    if k > 0 {
                        out.push(',');
                    }
                    out.push('"');
                    push_esc_str(members[k].0.as_str(), out);
                    out.push('"');
                    out.push(':');
                    proof {
                        broadcast use vstd::std_specs::vec::axiom_vec_index_decreases;
                        assert(decreases_to!(*self => (*self)->Obj_0));
                        assert((*self)->Obj_0 == *members);
                        assert(decreases_to!(*members => (*members)[k as int]));
                        assert(decreases_to!((*members)[k as int] => (*members)[k as int].1));
                        assert(decreases_to!(*self => (*members)[k as int].1));
                    }
                    members[k].1.render_into(out);
                    proof {
                        lemma_render_members_snoc(mv, k as int);
                        assert(mv.take(k as int + 1) =~= mv.take(k as int).push(mv[k as int]));
                        if k > 0 {
                            assert(out@ =~= old(out)@ + seq!['{'] + render_members(mv.take(k as int + 1)));
                        } else {
                            assert(out@ =~= old(out)@ + seq!['{'] + render_members(mv.take(1)));
                        }
                    }
                    k += 1;
                }
                out.push('}');
                proof {
                    assert(mv.take(members@.len() as int) =~= mv);
                    assert(out@ =~= old(out)@ + render(self@));
                }
            },
        }
    }

    /// The rendered text of this value, as a string.
    pub fn render_string(&self) -> (r: String)
        ensures
            r@ == render(self@),
    {
        let mut out: Vec<char> = Vec::new();
        self.render_into(&mut out);
        assert(out@ =~= render(self@));
        crate::text::string_of(&out)
    }
}

/// Rendering one more element appends a comma (when not first) and its text.
proof fn lemma_render_items_snoc(items: Seq<JsonV>, k: int)
    requires
        0 <= k < items.len(),
    ensures
        render_items(items.take(k + 1)) == if k == 0 {
            render(items[0])
        } else {
            render_items(items.take(k)) + seq![','] + render(items[k])
        },
    decreases k,
{
    if k == 0 {
        assert(items.take(1).len() == 1);
        assert(items.take(1)[0] == items[0]);
        assert(render_items(items.take(1)) == render(items[0]));
    } else {
        let a = items.take(k);
        let b = items.take(k + 1);
        lemma_render_items_snoc(items.drop_first(), k - 1);
        assert(a.drop_first() =~= items.drop_first().take(k - 1));
        assert(b.drop_first() =~= items.drop_first().take(k));
        assert(b.len() >= 2);
        assert(render_items(b) == render(b[0]) + seq![','] + render_items(b.drop_first()));
        assert(items.drop_first()[k - 1] == items[k]);
        if k == 1 {
            assert(render_items(b.drop_first()) == render(items[1]));
            assert(render_items(a) == render(a[0]));
            assert(render_items(b) =~= render_items(a) + seq![','] + render(items[k]));
        } else {
            assert(render_items(a) == render(a[0]) + seq![','] + render_items(a.drop_first()));
            assert(a[0] == items[0] && b[0] == items[0]);
            assert(render_items(b) =~= render_items(a) + seq![','] + render(items[k]));
        }
    }
}

/// Whether `c` is JSON insignificant whitespace.
pub open spec fn is_ws(c: char) -> bool {
    c == ' ' || c == '\t' || c == '\n' || c == '\r'
}

/// The first position at or after `i` that does not hold whitespace.
pub open spec fn ws_end(s: Seq<char>, i: int) -> int
    decreases s.len() - i,
{
    if 0 <= i < s.len() && is_ws(s[i]) {
        ws_end(s, i + 1)
    } else {
        i
    }
}

/// The first position at or after `i` that does not hold a number character.
pub open spec fn num_end(s: Seq<char>, i: int) -> int
    decreases s.len() - i,
{
    if 0 <= i < s.len() && is_num_char(s[i]) {
        num_end(s, i + 1)
    } else {
        i
    }
}

/// Whether `c` is a hexadecimal digit.
pub open spec fn is_hex_digit(c: char) -> bool {
    is_digit(c) || ('a' <= c && c <= 'f') || ('A' <= c && c <= 'F')
}

/// The value of a hexadecimal digit character.
pub open spec fn hex_val(c: char) -> nat {
    if is_digit(c) {
        (c as nat - '0' as nat) as nat
    } else if 'a' <= c && c <= 'f' {
        (c as nat - 'a' as nat + 10) as nat
    } else {
        (c as nat - 'A' as nat + 10) as nat
    }
}

/// The character that a simple escape `\c` stands for.
pub open spec fn esc_code(c: char) -> Option<char> {
    if c == '"' {
        Some('"')
    } else if c == '\\' {
        Some('\\')
    } else if c == '/' {
        Some('/')
    } else if c == 'b' {
        Some('\u{8}')
    } else if c == 'f' {
        Some('\u{c}')
    } else if c == 'n' {
        Some('\n')
    } else if c == 'r' {
        Some('\r')
    } else if c == 't' {
        Some('\t')
    } else {
        None
    }
}

/// Parses string contents beginning at `i` (just after the opening quote);
/// yields the decoded contents and the position after the closing quote.
pub open spec fn sp_string(s: Seq<char>, i: int) -> Option<(Seq<char>, int)>
    decreases s.len() - i, 0int,
{
    if i < 0 || i >= s.len() {
        None
    } else if s[i] == '"' {
        Some((Seq::empty(), i + 1))
    } else if s[i] == '\\' {
        if i + 1 >= s.len() {
            None
        } else if s[i + 1] == 'u' {
            if i + 6 <= s.len() && is_hex_digit(s[i + 2]) && is_hex_digit(s[i + 3])
                && is_hex_digit(s[i + 4]) && is_hex_digit(s[i + 5]) {
                let v = hex_val(s[i + 2]) * 4096 + hex_val(s[i + 3]) * 256 + hex_val(s[i + 4])
                    * 16 + hex_val(s[i + 5]);
                if v < 0x80 {
                    match sp_string(s, i + 6) {
                        Some((cs, j)) => Some((seq![(v as u8) as char] + cs, j)),
                        None => None,
                    }
                } else {
                    None
                }
            } else {
                None
            }
        } else {
            match esc_code(s[i + 1]) {
                Some(d) => match sp_string(s, i + 2) {
                    Some((cs, j)) => Some((seq![d] + cs, j)),
                    None => None,
                },
                None => None,
            }
        }
    } else if (s[i] as u32) < 0x20 {
        None
    } else {
        match sp_string(s, i + 1) {
            Some((cs, j)) => Some((seq![s[i]] + cs, j)),
            None => None,
        }
    }
}

/// Parses one JSON value beginning exactly at `i` (no leading whitespace).
pub open spec fn sp_value(s: Seq<char>, i: int) -> Option<(JsonV, int)>
    decreases s.len() - i, 1int,
{
    if i < 0 || i >= s.len() {
        None
    } else if s[i] == 'n' {
        if i + 4 <= s.len() && s[i + 1] == 'u' && s[i + 2] == 'l' && s[i + 3] == 'l' {
            Some((JsonV::Null, i + 4))
        } else {
            None
        }
    } else if s[i] == 't' {
        if i + 4 <= s.len() && s[i + 1] == 'r' && s[i + 2] == 'u' && s[i + 3] == 'e' {
            Some((JsonV::Bool(true), i + 4))
        } else {
            None
        }
    } else if s[i] == 'f' {
        if i + 5 <= s.len() && s[i + 1] == 'a' && s[i + 2] == 'l' && s[i + 3] == 's' && s[i + 4]
            == 'e' {
            Some((JsonV::Bool(false), i + 5))
        } else {
            None
        }
    } else if s[i] == '"' {
        match sp_string(s, i + 1) {
            Some((cs, j)) => Some((JsonV::Str(cs), j)),
            None => None,
        }
    } else if s[i] == '[' {
        let j = ws_end(s, i + 1);
        if j < s.len() && s[j] == ']' {
            Some((JsonV::Arr(Seq::empty()), j + 1))
        } else if !(i < j && j <= s.len()) {
            None
        } else {
            match sp_elems(s, j) {
                Some((vs, k)) => Some((JsonV::Arr(vs), k)),
                None => None,
            }
        }
    } else if s[i] == '{' {
        let j = ws_end(s, i + 1);
        if j < s.len() && s[j] == '}' {
            Some((JsonV::Obj(Seq::empty()), j + 1))
        } else if !(i < j && j <= s.len()) {
            None
        } else {
            match sp_members(s, j) {
                Some((ms, k)) => Some((JsonV::Obj(ms), k)),
                None => None,
            }
        }
    } else if s[i] == '-' || is_digit(s[i]) {
        let e = num_end(s, i);
        let lex = s.subrange(i, e);
        if is_number_lexeme(lex) {
            Some((JsonV::Num(lex), e))
        } else {
            None
        }
    } else {
        None
    }
}

/// Parses the elements of a non-empty array, the first beginning at `i`;
/// yields the elements and the position after the closing bracket.
pub open spec fn sp_elems(s: Seq<char>, i: int) -> Option<(Seq<JsonV>, int)>
    decreases s.len() - i, 2int,
{
    match sp_value(s, i) {
        None => None,
        Some((v, j)) => {
            let k = ws_end(s, j);
            if k < s.len() && s[k] == ',' {
                let m = ws_end(s, k + 1);
                if !(i < m && m <= s.len()) {
                    None
                } else {
                    match sp_elems(s, m) {
                        Some((vs, e)) => Some((seq![v] + vs, e)),
                        None => None,
                    }
                }
            } else if k < s.len() && s[k] == ']' {
                Some((seq![v], k + 1))
            } else {
                None
            }
        },
    }
}

/// Parses the members of a non-empty object, the first key beginning at `i`;
/// yields the members and the position after the closing brace.
pub open spec fn sp_members(s: Seq<char>, i: int) -> Option<(Seq<(Seq<char>, JsonV)>, int)>
    decreases s.len() - i, 2int,
{
    if i < 0 || i >= s.len() || s[i] != '"' {
        None
    } else {
        match sp_string(s, i + 1) {
            None => None,
            Some((key, j)) => {
                let k = ws_end(s, j);
                if k < s.len() && s[k] == ':' {
                    let m = ws_end(s, k + 1);
                    if !(i < m && m <= s.len()) {
                        None
                    } else {
                        match sp_value(s, m) {
                            None => None,
                            Some((v, e)) => {
                                let p = ws_end(s, e);
                                if p < s.len() && s[p] == ',' {
                                    let q = ws_end(s, p + 1);
                                    if !(i < q && q <= s.len()) {
                                        None
                                    } else {
                                        match sp_members(s, q) {
                                            Some((ms, z)) => Some((seq![(key, v)] + ms, z)),
                                            None => None,
                                        }
                                    }
                                } else if p < s.len() && s[p] == '}' {
                                    Some((seq![(key, v)], p + 1))
                                } else {
                                    None
                                }
                            },
                        }
                    }
                } else {
                    None
                }
            },
        }
    }
}

/// Parses a complete JSON document: one value, surrounded by whitespace only.
pub open spec fn sp_json(s: Seq<char>) -> Option<JsonV> {
    let i = ws_end(s, 0);
    match sp_value(s, i) {
        Some((v, j)) => if ws_end(s, j) == s.len() {
            Some(v)
        } else {
            None
        },
        None => None,
    }
}

/// `ws_end` never moves backwards and stays within the text.
pub proof fn lemma_ws_end(s: Seq<char>, i: int)
    requires
        0 <= i <= s.len(),
    ensures
        i <= ws_end(s, i) <= s.len(),
    decreases s.len() - i,
{
    if i < s.len() && is_ws(s[i]) {
        lemma_ws_end(s, i + 1);
    }
}

/// `ws_end` stops at the end or at a non-whitespace character.
pub proof fn lemma_ws_end_stop(s: Seq<char>, i: int)
    requires
        0 <= i <= s.len(),
    ensures
        ws_end(s, i) == s.len() || (0 <= ws_end(s, i) < s.len() && !is_ws(s[ws_end(s, i)])),
    decreases s.len() - i,
{
    if i < s.len() && is_ws(s[i]) {
        lemma_ws_end_stop(s, i + 1);
    }
}

/// `num_end` never moves backwards and stays within the text.
pub proof fn lemma_num_end(s: Seq<char>, i: int)
    requires
        0 <= i <= s.len(),
    ensures
        i <= num_end(s, i) <= s.len(),
    decreases s.len() - i,
{
    if i < s.len() && is_num_char(s[i]) {
        lemma_num_end(s, i + 1);
    }
}

fn is_ws_exec(c: char) -> (r: bool)
    ensures
        r == is_ws(c),
{
    c == ' ' || c == '\t' || c == '\n' || c == '\r'
}

fn is_digit_exec(c: char) -> (r: bool)
    ensures
        r == is_digit(c),
{
    '0' <= c && c <= '9'
}

fn is_num_char_exec(c: char) -> (r: bool)
    ensures
        r == is_num_char(c),
{
    is_digit_exec(c) || c == '-' || c == '+' || c == '.' || c == 'e' || c == 'E'
}

fn is_hex_digit_exec(c: char) -> (r: bool)
    ensures
        r == is_hex_digit(c),
{
    is_digit_exec(c) || ('a' <= c && c <= 'f') || ('A' <= c && c <= 'F')
}

fn hex_val_exec(c: char) -> (r: u32)
    requires
        is_hex_digit(c),
    ensures
        r == hex_val(c),
        r < 16,
{
    if '0' <= c && c <= '9' {
        (c as u32) - ('0' as u32)
    } else if 'a' <= c && c <= 'f' {
        (c as u32) - ('a' as u32) + 10
    } else {
        (c as u32) - ('A' as u32) + 10
    }
}

/// Skips whitespace, beginning at `i`.
pub(crate) fn skip_ws(s: &Vec<char>, i: usize) -> (r: usize)
    requires
        i <= s@.len(),
    ensures
        r == ws_end(s@, i as int),
        i <= r <= s@.len(),
{
    let mut j = i;
    while j < s.len() && is_ws_exec(s[j])
        invariant
            i <= j <= s@.len(),
            ws_end(s@, i as int) == ws_end(s@, j as int),
        decreases s@.len() - j,
    {
        j += 1;
    }
    j
}

/// Skips decimal digits, beginning at `i`.
fn skip_digits(s: &Vec<char>, i: usize) -> (r: usize)
    requires
        i <= s@.len(),
    ensures
        r == digits_end(s@, i as int),
        i <= r <= s@.len(),
{
    let mut j = i;
    while j < s.len() && is_digit_exec(s[j])
        invariant
            i <= j <= s@.len(),
            digits_end(s@, i as int) == digits_end(s@, j as int),
        decreases s@.len() - j,
    {
        j += 1;
    }
    j
}

/// Whether `s` is a valid JSON number lexeme.
pub fn check_number_lexeme(s: &Vec<char>) -> (r: bool)
    ensures
        r == is_number_lexeme(s@),
{
    let i0: usize = if s.len() > 0 && s[0] == '-' {
        1
    } else {
        0
    };
    let i1 = skip_digits(s, i0);
    if i1 <= i0 {
        return false;
    }
    if s[i0] == '0' && i1 != i0 + 1 {
        return false;
    }
    let i2: usize = if i1 < s.len() && s[i1] == '.' {
        let e = skip_digits(s, i1 + 1);
        if e > i1 + 1 {
            e
        } else {
            assert(frac_start(s@, i1 as int) == -1);
            return false;
        }
    } else {
        i1
    };
    assert(i2 == frac_start(s@, i1 as int));
    if i2 == s.len() {
        return true;
    }
    if s[i2] == 'e' || s[i2] == 'E' {
        let i3: usize = if i2 + 1 < s.len() && (s[i2 + 1] == '+' || s[i2 + 1] == '-') {
            i2 + 2
        } else {
            i2 + 1
        };
        let e = skip_digits(s, i3);
        e == s.len() && s.len() > i3
    } else {
        false
    }
}

/// Parses string contents beginning at `i` (just after the opening quote).
fn p_string(s: &Vec<char>, i: usize) -> (r: Option<(Vec<char>, usize)>)
    requires
        i <= s@.len(),
    ensures
        match r {
            Some((cs, j)) => {
                &&& sp_string(s@, i as int) == Some((cs@, j as int))
                &&& i < j <= s@.len()
            },
            None => sp_string(s@, i as int) is None,
        },
    decreases s@.len() - i, 0int,
{
    if i >= s.len() {
        return None;
    }
    let c = s[i];
    if c == '"' {
        let cs: Vec<char> = Vec::new();
        assert(cs@ =~= Seq::<char>::empty());
        Some((cs, i + 1))
    } else if c == '\\' {
        if s.len() - i < 2 {
            return None;
        }
        let d = s[i + 1];
        if d == 'u' {
            if s.len() - i < 6 {
                return None;
            }
            if !(is_hex_digit_exec(s[i + 2]) && is_hex_digit_exec(s[i + 3]) && is_hex_digit_exec(
                s[i + 4],
            ) && is_hex_digit_exec(s[i + 5])) {
                return None;
            }
            let v: u32 = hex_val_exec(s[i + 2]) * 4096 + hex_val_exec(s[i + 3]) * 256
                + hex_val_exec(s[i + 4]) * 16 + hex_val_exec(s[i + 5]);
            if v >= 0x80 {
                return None;
            }
            match p_string(s, i + 6) {
                Some((mut cs, j)) => {
                    cs.insert(0, (v as u8) as char);
                    assert(cs@ =~= seq![((v as u8) as char)] + cs@.drop_first());
                    Some((cs, j))
                },
                None => None,
            }
        } else {
            let decoded: char = if d == '"' {
                '"'
            } else if d == '\\' {
                '\\'
            } else if d == '/' {
                '/'
            } else if d == 'b' {
                '\u{8}'
            } else if d == 'f' {
                '\u{c}'
            } else if d == 'n' {
                '\n'
            } else if d == 'r' {
                '\r'
            } else if d == 't' {
                '\t'
            } else {
                return None;
            };
            assert(esc_code(d) == Some(decoded));
            match p_string(s, i + 2) {
                Some((mut cs, j)) => {
                    cs.insert(0, decoded);
                    assert(cs@ =~= seq![decoded] + cs@.drop_first());
                    Some((cs, j))
                },
                None => None,
            }
        }
    } else if (c as u32) < 0x20 {
        None
    } else {
        match p_string(s, i + 1) {
            Some((mut cs, j)) => {
                cs.insert(0, c);
                assert(cs@ =~= seq![c] + cs@.drop_first());
                Some((cs, j))
            },
            None => None,
        }
    }
}

/// Parses one JSON value beginning exactly at `i`.
fn p_value(s: &Vec<char>, i: usize) -> (r: Option<(Json, usize)>)
    requires
        i <= s@.len(),
    ensures
        match r {
            Some((v, j)) => {
                &&& sp_value(s@, i as int) == Some((jv(v), j as int))
                &&& i < j <= s@.len()
            },
            None => sp_value(s@, i as int) is None,
        },
    decreases s@.len() - i, 1int,
{
    if i >= s.len() {
        return None;
    }
    let c = s[i];
    if c == 'n' {
        if s.len() - i >= 4 && s[i + 1] == 'u' && s[i + 2] == 'l' && s[i + 3] == 'l' {
            Some((Json::Null, i + 4))
        } else {
            None
        }
    } else if c == 't' {
        if s.len() - i >= 4 && s[i + 1] == 'r' && s[i + 2] == 'u' && s[i + 3] == 'e' {
            Some((Json::Bool(true), i + 4))
        } else {
            None
        }
    } else if c == 'f' {
        if s.len() - i >= 5 && s[i + 1] == 'a' && s[i + 2] == 'l' && s[i + 3] == 's' && s[i + 4]
            == 'e' {
            Some((Json::Bool(false), i + 5))
        } else {
            None
        }
    } else if c == '"' {
        match p_string(s, i + 1) {
            Some((cs, j)) => {
                let v = Json::Str(crate::text::string_of(&cs));
                Some((v, j))
            },
            None => None,
        }
    } else if c == '[' {
        let j = skip_ws(s, i + 1);
        if j < s.len() && s[j] == ']' {
            let v = Json::Arr(Vec::new());
            assert(jv_seq(Seq::<Json>::empty()) =~= Seq::<JsonV>::empty());
            Some((v, j + 1))
        } else if j <= i {
            None
        } else {
            match p_elems(s, j) {
                Some((vs, k)) => Some((Json::Arr(vs), k)),
                None => None,
            }
        }
    } else if c == '{' {
        let j = skip_ws(s, i + 1);
        if j < s.len() && s[j] == '}' {
            let v = Json::Obj(Vec::new());
            assert(jv_members(Seq::<(String, Json)>::empty()) =~= Seq::<(Seq<char>, JsonV)>::empty());
            Some((v, j + 1))
        } else if j <= i {
            None
        } else {
            match p_members(s, j) {
                Some((ms, k)) => Some((Json::Obj(ms), k)),
                None => None,
            }
        }
    } else if c == '-' || is_digit_exec(c) {
        let e = skip_num_chars(s, i);
        let mut lex: Vec<char> = Vec::new();
        let mut k = i;
        while k < e
            invariant
                i <= k <= e <= s@.len(),
                lex@ == s@.subrange(i as int, k as int),
            decreases e - k,
        {
            lex.push(s[k]);
            assert(lex@ =~= s@.subrange(i as int, (k + 1) as int));
            k += 1;
        }
        if check_number_lexeme(&lex) {
            Some((Json::Num(lex), e))
        } else {
            None
        }
    } else {
        None
    }
}

/// Skips number characters, beginning at `i`.
fn skip_num_chars(s: &Vec<char>, i: usize) -> (r: usize)
    requires
        i <= s@.len(),
    ensures
        r == num_end(s@, i as int),
        i <= r <= s@.len(),
{
    let mut j = i;
    while j < s.len() && is_num_char_exec(s[j])
        invariant
            i <= j <= s@.len(),
            num_end(s@, i as int) == num_end(s@, j as int),
        decreases s@.len() - j,
    {
        j += 1;
    }
    j
}

/// Parses the elements of a non-empty array, the first beginning at `i`.
fn p_elems(s: &Vec<char>, i: usize) -> (r: Option<(Vec<Json>, usize)>)
    requires
        i <= s@.len(),
    ensures
        match r {
            Some((vs, j)) => {
                &&& sp_elems(s@, i as int) == Some((jv_seq(vs@), j as int))
                &&& i < j <= s@.len()
            },
            None => sp_elems(s@, i as int) is None,
        },
    decreases s@.len() - i, 2int,
{
    match p_value(s, i) {
        None => None,
        Some((v, j)) => {
            let k = skip_ws(s, j);
            if k < s.len() && s[k] == ',' {
                let m = skip_ws(s, k + 1);
                if m <= i {
                    None
                } else {
                    match p_elems(s, m) {
                        Some((mut vs, e)) => {
                            let ghost pre = vs@;
                            vs.insert(0, v);
                            proof {
                                assert(vs@.drop_first() =~= pre);
                                assert(vs@[0] == v);
                                assert(jv_seq(vs@) == seq![jv(v)] + jv_seq(pre));
                            }
                            Some((vs, e))
                        },
                        None => None,
                    }
                }
            } else if k < s.len() && s[k] == ']' {
                let mut vs: Vec<Json> = Vec::new();
                vs.push(v);
                proof {
                    assert(vs@.drop_first() =~= Seq::<Json>::empty());
                    assert(jv_seq(Seq::<Json>::empty()) == Seq::<JsonV>::empty());
                    assert(jv_seq(vs@) == seq![jv(vs@[0])] + jv_seq(vs@.drop_first()));
                    assert(vs@[0] == v);
                    assert(jv_seq(vs@) =~= seq![jv(v)]);
                }
                Some((vs, k + 1))
            } else {
                None
            }
        },
    }
}

/// Parses the members of a non-empty object, the first key beginning at `i`.
fn p_members(s: &Vec<char>, i: usize) -> (r: Option<(Vec<(String, Json)>, usize)>)
    requires
        i <= s@.len(),
    ensures
        match r {
            Some((ms, j)) => {
                &&& sp_members(s@, i as int) == Some((jv_members(ms@), j as int))
                &&& i < j <= s@.len()
            },
            None => sp_members(s@, i as int) is None,
        },
    decreases s@.len() - i, 2int,
{
    if i >= s.len() || s[i] != '"' {
        return None;
    }
    match p_string(s, i + 1) {
        None => None,
        Some((key_cs, j)) => {
            let key = crate::text::string_of(&key_cs);
            let k = skip_ws(s, j);
            if k < s.len() && s[k] == ':' {
                let m = skip_ws(s, k + 1);
                if m <= i {
                    None
                } else {
                    match p_value(s, m) {
                        None => None,
                        Some((v, e)) => {
                            let p = skip_ws(s, e);
                            if p < s.len() && s[p] == ',' {
                                let q = skip_ws(s, p + 1);
                                if q <= i {
                                    None
                                } else {
                                    match p_members(s, q) {
                                        Some((mut ms, z)) => {
                                            let ghost pre = ms@;
                                            ms.insert(0, (key, v));
                                            proof {
                                                assert(ms@.drop_first() =~= pre);
                                                assert(ms@[0] == (key, v));
                                                assert(jv_members(ms@) == seq![(key@, jv(v))]
                                                    + jv_members(pre));
                                            }
                                            Some((ms, z))
                                        },
                                        None => None,
                                    }
                                }
                            } else if p < s.len() && s[p] == '}' {
                                let mut ms: Vec<(String, Json)> = Vec::new();
                                ms.push((key, v));
                                proof {
                                    assert(ms@.drop_first() =~= Seq::<(String, Json)>::empty());
                                    assert(jv_members(Seq::<(String, Json)>::empty())
                                        == Seq::<(Seq<char>, JsonV)>::empty());
                                    assert(jv_members(ms@) == seq![(ms@[0].0@, jv(ms@[0].1))]
                                        + jv_members(ms@.drop_first()));
                                    assert(ms@[0] == (key, v));
                                    assert(jv_members(ms@) =~= seq![(key@, jv(v))]);
                                }
                                Some((ms, p + 1))
                            } else {
                                None
                            }
                        },
                    }
                }
            } else {
                None
            }
        },
    }
}

/// Parses a complete JSON document from a vector of characters.
pub fn parse_json_chars(s: &Vec<char>) -> (r: Option<Json>)
    ensures
        match r {
            Some(v) => sp_json(s@) == Some(jv(v)),
            None => sp_json(s@) is None,
        },
{
    let i = skip_ws(s, 0);
    match p_value(s, i) {
        Some((v, j)) => {
            let e = skip_ws(s, j);
            if e == s.len() {
                Some(v)
            } else {
                None
            }
        },
        None => None,
    }
}

/// Parses a complete JSON document from a string slice.
pub fn parse_json_text(s: &str) -> (r: Option<Json>)
    ensures
        match r {
            Some(v) => sp_json(s@) == Some(jv(v)),
            None => sp_json(s@) is None,
        },
{
    let cs = crate::text::chars_of(s);
    parse_json_chars(&cs)
}

/// Rendering one more member appends a comma (when not first) and its text.
proof fn lemma_render_members_snoc(members: Seq<(Seq<char>, JsonV)>, k: int)
    requires
        0 <= k < members.len(),
    ensures
        render_members(members.take(k + 1)) == if k == 0 {
            seq!['"'] + esc_str(members[0].0) + seq!['"', ':'] + render(members[0].1)
        } else {
            render_members(members.take(k)) + seq![','] + seq!['"'] + esc_str(members[k].0)
                + seq!['"', ':'] + render(members[k].1)
        },
    decreases k,
{
    if k == 0 {
        assert(members.take(1).len() == 1);
        assert(members.take(1)[0] == members[0]);
    } else {
        let a = members.take(k);
        let b = members.take(k + 1);
        lemma_render_members_snoc(members.drop_first(), k - 1);
        assert(a.drop_first() =~= members.drop_first().take(k - 1));
        assert(b.drop_first() =~= members.drop_first().take(k));
        assert(b.len() >= 2);
        assert(members.drop_first()[k - 1] == members[k]);
        assert(a[0] == members[0] && b[0] == members[0]);
        if k == 1 {
            assert(render_members(b) =~= render_members(a) + seq![','] + seq!['"']
                + esc_str(members[k].0) + seq!['"', ':'] + render(members[k].1));
        } else {
            assert(render_members(b) =~= render_members(a) + seq![','] + seq!['"']
                + esc_str(members[k].0) + seq!['"', ':'] + render(members[k].1));
        }
    }
}

} // verus!
