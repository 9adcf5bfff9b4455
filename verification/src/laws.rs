//! The codec's round-trip laws: parsing inverts rendering, for every
//! well-formed JSON value — and therefore every encoded request, response
//! and credential store decodes back to itself, identifiers included.

use vstd::prelude::*;
use crate::json::{JsonV, render, render_items, render_members, esc_str, esc_char, sp_json,
    sp_value, sp_string, sp_elems, sp_members, ws_end, num_end, digits_end, is_ws, is_num_char,
    is_number_lexeme, frac_start, exp_part_ok, is_hex_digit, hex_val, hex_char, esc_code,
    wf_json};
use crate::text::{is_digit, dec_digits, lemma_dec_digits};
use crate::rpc::{JsonRpcRequestV, JsonRpcResponseV, request_jsonv, response_jsonv,
    decoded_request, decoded_response, int_code_digits, lemma_request_round_trip,
    lemma_response_round_trip, lemma_obj_lookup_at};
use crate::store::{StoredToken, StoredClient, StoredTokenV, StoredClientV, token_jsonv,
    client_jsonv, token_members, client_members, store_jsonv, store_of_jsonv, tokens_of_members,
    clients_of_members, token_entry_views, client_entry_views, token_of_jsonv, client_of_jsonv,
    lemma_token_round_trip, lemma_client_round_trip};

verus! {

/// Every digit run scanned by `digits_end` is digits, and the scan stops
/// exactly at the end or at a non-digit.
proof fn lemma_digits_end_range(s: Seq<char>, i: int)
    requires
        0 <= i <= s.len(),
    ensures
        i <= digits_end(s, i) <= s.len(),
        forall|k: int| i <= k < digits_end(s, i) ==> is_digit(#[trigger] s[k]),
        digits_end(s, i) < s.len() ==> !is_digit(s[digits_end(s, i)]),
    decreases s.len() - i,
{
    if i < s.len() && is_digit(s[i]) {
        lemma_digits_end_range(s, i + 1);
    }
}

/// Every character of a well-formed number lexeme is a number character,
/// the lexeme is non-empty, and it begins with a minus sign or a digit.
proof fn lemma_lexeme_chars(lex: Seq<char>)
    requires
        is_number_lexeme(lex),
    ensures
        lex.len() >= 1,
        forall|k: int| 0 <= k < lex.len() ==> is_num_char(#[trigger] lex[k]),
        lex[0] == '-' || is_digit(lex[0]),
    decreases lex.len(),
{
    let i0: int = if lex.len() > 0 && lex[0] == '-' {
        1
    } else {
        0
    };
    let i1 = digits_end(lex, i0);
    lemma_digits_end_range(lex, i0);
    let i2 = frac_start(lex, i1);
    if i1 < lex.len() && lex[i1] == '.' {
        lemma_digits_end_range(lex, i1 + 1);
    }
    assert(i2 >= 0);
    assert(i1 <= i2 <= lex.len());
    assert(forall|k: int| i1 <= k < i2 ==> is_num_char(#[trigger] lex[k])) by {
        if i1 < lex.len() && lex[i1] == '.' {
            assert(forall|k: int|
                i1 + 1 <= k < digits_end(lex, i1 + 1) ==> is_digit(#[trigger] lex[k]));
        }
    }
    if i2 < lex.len() {
        assert(lex[i2] == 'e' || lex[i2] == 'E');
        let i3: int = if i2 + 1 < lex.len() && (lex[i2 + 1] == '+' || lex[i2 + 1] == '-') {
            i2 + 2
        } else {
            i2 + 1
        };
        lemma_digits_end_range(lex, i3);
        assert(digits_end(lex, i3) == lex.len());
        assert(forall|k: int| i3 <= k < lex.len() ==> is_digit(#[trigger] lex[k]));
    }
    assert forall|k: int| 0 <= k < lex.len() implies is_num_char(#[trigger] lex[k]) by {
        if k < i0 {
            assert(lex[k] == '-');
        } else if k < i1 {
            assert(is_digit(lex[k]));
        } else if k < i2 {
        } else if k == i2 && i2 < lex.len() {
            assert(lex[i2] == 'e' || lex[i2] == 'E');
        } else {
        }
    }
}

/// A maximal run of number characters ends exactly where they stop.
proof fn lemma_num_end_exact(s: Seq<char>, i: int, j: int)
    requires
        0 <= i <= j <= s.len(),
        forall|k: int| i <= k < j ==> is_num_char(#[trigger] s[k]),
        j == s.len() || !is_num_char(s[j]),
    ensures
        num_end(s, i) == j,
    decreases j - i,
{
    if i < j {
        lemma_num_end_exact(s, i + 1, j);
    }
}

/// Scanning whitespace from a non-whitespace position stays put.
proof fn lemma_ws_end_here(s: Seq<char>, i: int)
    requires
        0 <= i,
        i >= s.len() || !is_ws(s[i]),
    ensures
        ws_end(s, i) == i,
{
}

/// The digits of a number form a well-formed number lexeme.
pub proof fn lemma_dec_digits_lexeme(n: nat)
    ensures
        is_number_lexeme(dec_digits(n)),
{
    lemma_dec_digits(n);
    let lex = dec_digits(n);
    assert(lex.len() >= 1 && lex[0] != '-');
    lemma_digits_end_range(lex, 0);
    assert(digits_end(lex, 0) == lex.len()) by {
        lemma_num_end_exact_digits(lex, 0, lex.len() as int);
    }
    assert(frac_start(lex, lex.len() as int) == lex.len());
    assert(exp_part_ok(lex, lex.len() as int));
    if n < 10 {
        assert(lex.len() == 1);
    } else {
        assert(lex[0] != '0');
    }
}

/// A run of digits scans to its end.
proof fn lemma_num_end_exact_digits(s: Seq<char>, i: int, j: int)
    requires
        0 <= i <= j <= s.len(),
        forall|k: int| i <= k < j ==> is_digit(#[trigger] s[k]),
        j == s.len() || !is_digit(s[j]),
    ensures
        digits_end(s, i) == j,
    decreases j - i,
{
    if i < j {
        lemma_num_end_exact_digits(s, i + 1, j);
    }
}

/// The hexadecimal digit characters evaluate back to their values.
proof fn lemma_hex_inverse(d: nat)
    requires
        d < 16,
    ensures
        is_hex_digit(hex_char(d)),
        hex_val(hex_char(d)) == d,
{
}

/// Rendering never begins with whitespace, a comma, a colon or a closing
/// bracket, and never with nothing.
proof fn lemma_render_first(v: JsonV)
    requires
        wf_json(v),
    ensures
        render(v).len() >= 1,
        !is_ws(render(v)[0]),
        render(v)[0] != ']' && render(v)[0] != '}' && render(v)[0] != ',' && render(v)[0] != ':',
        (render(v)[0] == 'n' ==> v is Null),
        (render(v)[0] == 't' ==> v matches JsonV::Bool(true)),
        (render(v)[0] == 'f' ==> v matches JsonV::Bool(false)),
        (render(v)[0] == '"' ==> v is Str),
        (render(v)[0] == '[' ==> v is Arr),
        (render(v)[0] == '{' ==> v is Obj),
        ((render(v)[0] == '-' || is_digit(render(v)[0])) ==> v is Num),
{
    match v {
        JsonV::Null => {}
        JsonV::Bool(b) => {}
        JsonV::Num(lex) => {
            lemma_lexeme_chars(lex);
        }
        JsonV::Str(s) => {
            assert(render(v)[0] == '"');
        }
        JsonV::Arr(items) => {
            assert(render(v)[0] == '[');
        }
        JsonV::Obj(members) => {
            assert(render(v)[0] == '{');
        }
    }
}

/// A control character survives the cast chain through its code point.
proof fn lemma_low_char_cast(c: char)
    requires
        (c as u32) < 0x20,
    ensures
        (((c as u32) as u8) as char) == c,
{
}

/// Parsing string contents inverts escaping: from just after the opening
/// quote, the parser recovers the contents and stops after the close.
#[verifier::rlimit(100)]
proof fn lemma_parse_string(cs: Seq<char>, s: Seq<char>, i: int)
    requires
        0 <= i,
        i + esc_str(cs).len() + 1 <= s.len(),
        s.subrange(i, i + esc_str(cs).len()) == esc_str(cs),
        s[i + esc_str(cs).len()] == '"',
    ensures
        sp_string(s, i) == Some((cs, i + esc_str(cs).len() + 1)),
    decreases cs.len(),
{
    let w = esc_str(cs);
    assert(forall|k: int| 0 <= k < w.len() ==> #[trigger] s[i + k] == w[k]) by {
        assert(forall|k: int|
            0 <= k < w.len() ==> s.subrange(i, i + w.len())[k] == #[trigger] w[k]);
    }
    if cs.len() == 0 {
        assert(w =~= Seq::<char>::empty());
        assert(s[i] == '"');
    } else {
        let c = cs[0];
        let rest = cs.drop_first();
        let e = esc_char(c);
        assert(w == e + esc_str(rest));
        let ri = i + e.len();
        assert(s.subrange(ri, ri + esc_str(rest).len()) =~= esc_str(rest)) by {
            assert forall|k: int|
                0 <= k < esc_str(rest).len() implies s.subrange(
                ri,
                ri + esc_str(rest).len(),
            )[k] == esc_str(rest)[k] by {
                assert(s[i + (e.len() + k)] == w[e.len() + k]);
                assert(w[e.len() + k] == esc_str(rest)[k]);
            }
        }
        assert(s[ri + esc_str(rest).len()] == '"') by {
            assert(ri + esc_str(rest).len() == i + w.len());
        }
        lemma_parse_string(rest, s, ri);
        if c == '"' {
            assert(e == seq!['\\', '"']);
            assert(s[i + 0] == '\\' && s[i + 1] == '"');
            assert(esc_code(s[i + 1]) == Some('"'));
            assert(sp_string(s, i) == Some((seq!['"'] + rest, ri + esc_str(rest).len() + 1)));
            assert(seq!['"'] + rest =~= cs);
        } else if c == '\\' {
            assert(e == seq!['\\', '\\']);
            assert(s[i + 0] == '\\' && s[i + 1] == '\\');
            assert(esc_code(s[i + 1]) == Some('\\'));
            assert(sp_string(s, i) == Some((seq!['\\'] + rest, ri + esc_str(rest).len() + 1)));
            assert(seq!['\\'] + rest =~= cs);
        } else if (c as u32) < 0x20 {
            assert(e == seq!['\\', 'u', '0', '0', hex_char((c as u32 / 16) as nat), hex_char(
                (c as u32 % 16) as nat,
            )]);
            assert(s[i + 0] == '\\' && s[i + 1] == 'u' && s[i + 2] == '0' && s[i + 3] == '0');
            assert(s[i + 4] == hex_char((c as u32 / 16) as nat) && s[i + 5] == hex_char(
                (c as u32 % 16) as nat,
            ));
            lemma_hex_inverse((c as u32 / 16) as nat);
            lemma_hex_inverse((c as u32 % 16) as nat);
            assert(hex_val(s[i + 2]) == 0 && hex_val(s[i + 3]) == 0);
            let v = hex_val(s[i + 1 + 1]) * 4096 + hex_val(s[i + 1 + 2]) * 256 + hex_val(
                s[i + 1 + 3],
            ) * 16 + hex_val(s[i + 1 + 4]);
            assert(v == c as u32);
            assert(v < 0x80);
            assert((v as u8) == ((c as u32) as u8));
            lemma_low_char_cast(c);
            assert(((v as u8) as char) == c);
            assert(sp_string(s, i) == Some(
                (seq![((v as u8) as char)] + rest, ri + esc_str(rest).len() + 1),
            ));
            assert(seq![((v as u8) as char)] + rest =~= cs);
        } else {
            assert(e == seq![c]);
            assert(s[i + 0] == c);
            assert(s[i + 0] != '"' && s[i + 0] != '\\' && !((s[i + 0] as u32) < 0x20));
            assert(sp_string(s, i) == Some((seq![c] + rest, ri + esc_str(rest).len() + 1)));
            assert(seq![c] + rest =~= cs);
        }
    }
}

/// Parsing inverts rendering at any position: a well-formed value's
/// rendered text, found at `i` (and, for a number, not followed by a
/// number character), parses back to exactly that value.
#[verifier::rlimit(100)]
pub proof fn lemma_parse_render_at(v: JsonV, s: Seq<char>, i: int)
    requires
        wf_json(v),
        0 <= i,
        i + render(v).len() <= s.len(),
        s.subrange(i, i + render(v).len()) == render(v),
        (v is Num && i + render(v).len() < s.len()) ==> !is_num_char(s[i + render(v).len()]),
    ensures
        sp_value(s, i) == Some((v, i + render(v).len())),
    decreases v, 1int,
{
    let w = render(v);
    assert(forall|k: int| 0 <= k < w.len() ==> #[trigger] s[i + k] == w[k]) by {
        assert(forall|k: int|
            0 <= k < w.len() ==> s.subrange(i, i + w.len())[k] == #[trigger] w[k]);
    }
    lemma_render_first(v);
    assert(s[i + 0] == w[0]);
    match v {
        JsonV::Null => {
            assert(s[i + 0] == 'n' && s[i + 1] == 'u' && s[i + 2] == 'l' && s[i + 3] == 'l');
            assert(sp_value(s, i) == Some((v, i + render(v).len())));
        }
        JsonV::Bool(b) => {
            if b {
                assert(s[i + 0] == 't' && s[i + 1] == 'r' && s[i + 2] == 'u' && s[i + 3] == 'e');
            } else {
                assert(s[i + 0] == 'f' && s[i + 1] == 'a' && s[i + 2] == 'l' && s[i + 3] == 's'
                    && s[i + 4] == 'e');
            }
            assert(sp_value(s, i) == Some((v, i + render(v).len())));
        }
        JsonV::Num(lex) => {
            lemma_lexeme_chars(lex);
            assert(s[i + 0] == lex[0]);
            assert(s[i] == '-' || is_digit(s[i]));
            assert(s[i] != 'n' && s[i] != 't' && s[i] != 'f' && s[i] != '"' && s[i] != '['
                && s[i] != '{');
            assert forall|k: int| i <= k < i + lex.len() implies is_num_char(#[trigger] s[k]) by {
                assert(s[i + (k - i)] == w[k - i]);
            }
            lemma_num_end_exact(s, i, i + lex.len());
            assert(s.subrange(i, num_end(s, i)) =~= lex) by {
                assert forall|k: int|
                    0 <= k < lex.len() implies s.subrange(i, i + lex.len())[k] == lex[k] by {
                    assert(s[i + k] == w[k]);
                }
            }
            assert(sp_value(s, i) == Some((v, i + render(v).len())));
        }
        JsonV::Str(cs) => {
            assert(w == seq!['"'] + esc_str(cs) + seq!['"']);
            assert(s[i + 0] == '"');
            assert(s.subrange(i + 1, i + 1 + esc_str(cs).len()) =~= esc_str(cs)) by {
                assert forall|k: int|
                    0 <= k < esc_str(cs).len() implies s.subrange(
                    i + 1,
                    i + 1 + esc_str(cs).len(),
                )[k] == esc_str(cs)[k] by {
                    assert(s[i + (1 + k)] == w[1 + k]);
                    assert(w[1 + k] == esc_str(cs)[k]);
                }
            }
            assert(s[i + 1 + esc_str(cs).len()] == '"') by {
                assert(s[i + (w.len() - 1)] == w[w.len() - 1]);
                assert(w[w.len() - 1] == '"');
            }
            lemma_parse_string(cs, s, i + 1);
            assert(sp_value(s, i) == Some((v, i + render(v).len())));
        }
        JsonV::Arr(items) => {
            assert(w == seq!['['] + render_items(items) + seq![']']);
            assert(s[i + 0] == '[');
            if items.len() == 0 {
                assert(render_items(items) == Seq::<char>::empty());
                assert(s[i + 1] == w[1]);
                assert(s[i + 1] == ']');
                lemma_ws_end_here(s, i + 1);
                assert(items =~= Seq::<JsonV>::empty());
                assert(v == JsonV::Arr(Seq::empty()));
            } else {
                assert(s.subrange(i + 1, i + 1 + render_items(items).len()) =~= render_items(
                    items,
                )) by {
                    assert forall|k: int|
                        0 <= k < render_items(items).len() implies s.subrange(
                        i + 1,
                        i + 1 + render_items(items).len(),
                    )[k] == render_items(items)[k] by {
                        assert(s[i + (1 + k)] == w[1 + k]);
                        assert(w[1 + k] == render_items(items)[k]);
                    }
                }
                assert(s[i + 1 + render_items(items).len()] == ']') by {
                    assert(s[i + (w.len() - 1)] == w[w.len() - 1]);
                    assert(w[w.len() - 1] == ']');
                }
                assert(wf_json(items[0]));
                lemma_render_first(items[0]);
                assert(render_items(items)[0] == render(items[0])[0]) by {
                    if items.len() == 1 {
                    } else {
                        assert(render_items(items) == render(items[0]) + seq![','] + render_items(
                            items.drop_first(),
                        ));
                    }
                }
                assert(render_items(items).len() >= 1) by {
                    if items.len() == 1 {
                    } else {
                        assert(render_items(items) == render(items[0]) + seq![','] + render_items(
                            items.drop_first(),
                        ));
                    }
                }
                assert(s[i + 1] == w[1]);
                assert(w[1] == render_items(items)[0]);
                assert(!is_ws(s[i + 1]));
                lemma_ws_end_here(s, i + 1);
                assert(s[i + 1] != ']');
                broadcast use vstd::seq::group_seq_axioms;

                assert(decreases_to!(v => v->Arr_0));
                lemma_parse_elems_at(items, s, i + 1);
            }
            assert(sp_value(s, i) == Some((v, i + render(v).len())));
        }
        JsonV::Obj(members) => {
            assert(w == seq!['{'] + render_members(members) + seq!['}']);
            assert(s[i + 0] == '{');
            if members.len() == 0 {
                assert(render_members(members) == Seq::<char>::empty());
                assert(s[i + 1] == w[1]);
                assert(s[i + 1] == '}');
                lemma_ws_end_here(s, i + 1);
                assert(members =~= Seq::<(Seq<char>, JsonV)>::empty());
                assert(v == JsonV::Obj(Seq::empty()));
            } else {
                assert(s.subrange(i + 1, i + 1 + render_members(members).len())
                    =~= render_members(members)) by {
                    assert forall|k: int|
                        0 <= k < render_members(members).len() implies s.subrange(
                        i + 1,
                        i + 1 + render_members(members).len(),
                    )[k] == render_members(members)[k] by {
                        assert(s[i + (1 + k)] == w[1 + k]);
                        assert(w[1 + k] == render_members(members)[k]);
                    }
                }
                assert(s[i + 1 + render_members(members).len()] == '}') by {
                    assert(s[i + (w.len() - 1)] == w[w.len() - 1]);
                    assert(w[w.len() - 1] == '}');
                }
                assert(render_members(members)[0] == '"' && render_members(members).len() >= 1)
                    by {
                    let rhead = seq!['"'] + esc_str(members[0].0) + seq!['"', ':'] + render(
                        members[0].1,
                    );
                    if members.len() == 1 {
                        assert(render_members(members) == rhead);
                    } else {
                        assert(render_members(members) == rhead + seq![','] + render_members(
                            members.drop_first(),
                        ));
                    }
                }
                assert(s[i + 1] == w[1]);
                assert(w[1] == render_members(members)[0]);
                assert(s[i + 1] == '"');
                lemma_ws_end_here(s, i + 1);
                broadcast use vstd::seq::group_seq_axioms;

                assert(decreases_to!(v => v->Obj_0));
                lemma_parse_members_at(members, s, i + 1);
            }
            assert(sp_value(s, i) == Some((v, i + render(v).len())));
        }
    }
}

/// Parsing inverts rendering for a non-empty run of array elements that
/// ends at a closing bracket.
#[verifier::rlimit(100)]
proof fn lemma_parse_elems_at(items: Seq<JsonV>, s: Seq<char>, i: int)
    requires
        items.len() > 0,
        forall|k: int| 0 <= k < items.len() ==> wf_json(#[trigger] items[k]),
        0 <= i,
        i + render_items(items).len() + 1 <= s.len(),
        s.subrange(i, i + render_items(items).len()) == render_items(items),
        s[i + render_items(items).len()] == ']',
    ensures
        sp_elems(s, i) == Some((items, i + render_items(items).len() + 1)),
    decreases items, 0int,
{
    broadcast use vstd::seq::group_seq_axioms;

    let w = render_items(items);
    assert(forall|k: int| 0 <= k < w.len() ==> #[trigger] s[i + k] == w[k]) by {
        assert(forall|k: int|
            0 <= k < w.len() ==> s.subrange(i, i + w.len())[k] == #[trigger] w[k]);
    }
    let first = items[0];
    assert(wf_json(first));
    let fl = render(first).len() as int;
    if items.len() == 1 {
        assert(w == render(first));
        assert(s.subrange(i, i + fl) == render(first));
        assert(s[i + fl] == ']');
        assert(!is_num_char(s[i + fl]));
        assert(decreases_to!(items => items[0]));
        lemma_parse_render_at(first, s, i);
        lemma_ws_end_here(s, i + fl);
        assert(sp_elems(s, i) == Some((seq![first], i + fl + 1)));
        assert(seq![first] =~= items);
    } else {
        let rest = items.drop_first();
        assert(w == render(first) + seq![','] + render_items(rest));
        assert(s.subrange(i, i + fl) =~= render(first)) by {
            assert forall|k: int|
                0 <= k < fl implies s.subrange(i, i + fl)[k] == render(first)[k] by {
                assert(s[i + k] == w[k]);
                assert(w[k] == render(first)[k]);
            }
        }
        assert(s[i + fl] == ',') by {
            assert(s[i + fl] == w[fl]);
            assert(w[fl] == ',');
        }
        assert(!is_num_char(s[i + fl]));
        assert(decreases_to!(items => items[0]));
        lemma_parse_render_at(first, s, i);
        lemma_ws_end_here(s, i + fl);
        let m = i + fl + 1;
        assert(s.subrange(m, m + render_items(rest).len()) =~= render_items(rest)) by {
            assert forall|k: int|
                0 <= k < render_items(rest).len() implies s.subrange(
                m,
                m + render_items(rest).len(),
            )[k] == render_items(rest)[k] by {
                assert(s[i + (fl + 1 + k)] == w[fl + 1 + k]);
                assert(w[fl + 1 + k] == render_items(rest)[k]);
            }
        }
        assert(s[m + render_items(rest).len()] == ']') by {
            assert(m + render_items(rest).len() == i + w.len());
        }
        assert(rest.len() > 0);
        assert(render_items(rest)[0] == render(rest[0])[0]) by {
            if rest.len() == 1 {
            } else {
                assert(render_items(rest) == render(rest[0]) + seq![','] + render_items(
                    rest.drop_first(),
                ));
            }
        }
        assert(wf_json(rest[0])) by {
            assert(rest[0] == items[1]);
        }
        lemma_render_first(rest[0]);
        assert(!is_ws(s[m])) by {
            assert(s[i + (fl + 1)] == w[fl + 1]);
            assert(w[fl + 1] == render_items(rest)[0]);
        }
        lemma_ws_end_here(s, m);
        assert forall|k: int| 0 <= k < rest.len() implies wf_json(#[trigger] rest[k]) by {
            assert(rest[k] == items[k + 1]);
        }
        assert(rest =~= items.subrange(1, items.len() as int));
        vstd::seq::axiom_seq_subrange_decreases(items, 1, items.len() as int);
        assert(decreases_to!(items => rest));
        lemma_parse_elems_at(rest, s, m);
        assert(sp_elems(s, i) == Some((seq![first] + rest, m + render_items(rest).len() + 1)));
        assert(seq![first] + rest =~= items);
    }
}

/// Parsing inverts rendering for a non-empty run of object members that
/// ends at a closing brace.
#[verifier::rlimit(100)]
proof fn lemma_parse_members_at(members: Seq<(Seq<char>, JsonV)>, s: Seq<char>, i: int)
    requires
        members.len() > 0,
        forall|k: int| 0 <= k < members.len() ==> wf_json((#[trigger] members[k]).1),
        0 <= i,
        i + render_members(members).len() + 1 <= s.len(),
        s.subrange(i, i + render_members(members).len()) == render_members(members),
        s[i + render_members(members).len()] == '}',
    ensures
        sp_members(s, i) == Some((members, i + render_members(members).len() + 1)),
    decreases members, 0int,
{
    broadcast use vstd::seq::group_seq_axioms;

    let w = render_members(members);
    assert(forall|k: int| 0 <= k < w.len() ==> #[trigger] s[i + k] == w[k]) by {
        assert(forall|k: int|
            0 <= k < w.len() ==> s.subrange(i, i + w.len())[k] == #[trigger] w[k]);
    }
    let key = members[0].0;
    let val = members[0].1;
    assert(wf_json(val));
    let head = seq!['"'] + esc_str(key) + seq!['"', ':'] + render(val);
    if members.len() == 1 {
        assert(w == head);
    } else {
        assert(w == head + seq![','] + render_members(members.drop_first()));
    }
    let el = esc_str(key).len() as int;
    assert(s[i + 0] == '"') by {
        assert(s[i + 0] == w[0]);
        assert(w[0] == head[0]);
    }
    assert(s.subrange(i + 1, i + 1 + el) =~= esc_str(key)) by {
        assert forall|k: int|
            0 <= k < el implies s.subrange(i + 1, i + 1 + el)[k] == esc_str(key)[k] by {
            assert(s[i + (1 + k)] == w[1 + k]);
            assert(w[1 + k] == head[1 + k]);
            assert(head[1 + k] == esc_str(key)[k]);
        }
    }
    assert(s[i + 1 + el] == '"') by {
        assert(s[i + (1 + el)] == w[1 + el]);
        assert(w[1 + el] == head[1 + el]);
        assert(head[1 + el] == '"');
    }
    lemma_parse_string(key, s, i + 1);
    let j = i + 2 + el;
    assert(s[j] == ':') by {
        assert(s[i + (2 + el)] == w[2 + el]);
        assert(w[2 + el] == head[2 + el]);
        assert(head[2 + el] == ':');
    }
    lemma_ws_end_here(s, j);
    let m = j + 1;
    let vl = render(val).len() as int;
    assert(s.subrange(m, m + vl) =~= render(val)) by {
        assert forall|k: int| 0 <= k < vl implies s.subrange(m, m + vl)[k] == render(val)[k] by {
            assert(s[i + (el + 3 + k)] == w[el + 3 + k]);
            assert(w[el + 3 + k] == head[el + 3 + k]);
            assert(head[el + 3 + k] == render(val)[k]);
        }
    }
    lemma_render_first(val);
    assert(!is_ws(s[m])) by {
        assert(s[i + (el + 3)] == w[el + 3]);
        assert(w[el + 3] == head[el + 3]);
        assert(head[el + 3] == render(val)[0]);
    }
    lemma_ws_end_here(s, m);
    let p = m + vl;
    assert(p == i + head.len() as int);
    if members.len() == 1 {
        assert(s[p] == '}');
        assert(!is_num_char(s[p]));
        assert(decreases_to!(members => members[0]));
        assert(decreases_to!(members[0] => members[0].1));
        lemma_parse_render_at(val, s, m);
        lemma_ws_end_here(s, p);
        assert(sp_members(s, i) == Some((seq![(key, val)], p + 1)));
        assert(seq![(key, val)] =~= members);
    } else {
        let rest = members.drop_first();
        assert(s[p] == ',') by {
            assert(s[i + head.len() as int] == w[head.len() as int]);
            assert(w[head.len() as int] == ',');
        }
        assert(!is_num_char(s[p]));
        assert(decreases_to!(members => members[0]));
        assert(decreases_to!(members[0] => members[0].1));
        lemma_parse_render_at(val, s, m);
        lemma_ws_end_here(s, p);
        let q = p + 1;
        assert(s.subrange(q, q + render_members(rest).len()) =~= render_members(rest)) by {
            assert forall|k: int|
                0 <= k < render_members(rest).len() implies s.subrange(
                q,
                q + render_members(rest).len(),
            )[k] == render_members(rest)[k] by {
                assert(s[i + (head.len() as int + 1 + k)] == w[head.len() as int + 1 + k]);
                assert(w[head.len() as int + 1 + k] == render_members(rest)[k]);
            }
        }
        assert(s[q + render_members(rest).len()] == '}') by {
            assert(q + render_members(rest).len() == i + w.len());
        }
        assert(rest.len() > 0);
        assert(render_members(rest)[0] == '"') by {
            let rhead = seq!['"'] + esc_str(rest[0].0) + seq!['"', ':'] + render(rest[0].1);
            if rest.len() == 1 {
                assert(render_members(rest) == rhead);
            } else {
                assert(render_members(rest) == rhead + seq![','] + render_members(
                    rest.drop_first(),
                ));
            }
        }
        assert(s[q] == '"') by {
            assert(s[i + (head.len() as int + 1)] == w[head.len() as int + 1]);
            assert(w[head.len() as int + 1] == render_members(rest)[0]);
        }
        lemma_ws_end_here(s, q);
        assert forall|k: int| 0 <= k < rest.len() implies wf_json((#[trigger] rest[k]).1) by {
            assert(rest[k] == members[k + 1]);
        }
        assert(rest =~= members.subrange(1, members.len() as int));
        vstd::seq::axiom_seq_subrange_decreases(members, 1, members.len() as int);
        assert(decreases_to!(members => rest));
        lemma_parse_members_at(rest, s, q);
        assert(sp_members(s, i) == Some(
            (seq![(key, val)] + rest, q + render_members(rest).len() + 1),
        ));
        assert(seq![(key, val)] + rest =~= members);
    }
}

/// Parsing inverts rendering: every well-formed JSON value's rendered text
/// parses back to exactly that value.
pub proof fn lemma_json_round_trip(v: JsonV)
    requires
        wf_json(v),
    ensures
        sp_json(render(v)) == Some(v),
{
    let s = render(v);
    lemma_render_first(v);
    lemma_ws_end_here(s, 0);
    assert(s.subrange(0, s.len() as int) =~= s);
    lemma_parse_render_at(v, s, 0);
    lemma_ws_end_here(s, s.len() as int);
}

/// Every request encodes to a well-formed JSON value.
proof fn lemma_request_jsonv_wf(rv: JsonRpcRequestV)
    requires
        rv.params matches Some(p) ==> wf_json(p),
    ensures
        wf_json(request_jsonv(rv)),
{
    let ms = (request_jsonv(rv))->Obj_0;
    assert forall|k: int| 0 <= k < ms.len() implies wf_json((#[trigger] ms[k]).1) by {
        if k == 1 {
            match rv.id {
                crate::rpc::RequestIdV::Number(n) => {
                    lemma_dec_digits_lexeme(n as nat);
                },
                crate::rpc::RequestIdV::Str(_) => {},
            }
        }
    }
}

/// Encoding a request and decoding the resulting text is lossless — for
/// the whole envelope, and so in particular for the identifier, whether
/// it is numeric or string-typed.
pub proof fn lemma_request_text_round_trip(rv: JsonRpcRequestV)
    requires
        rv.params matches Some(p) ==> wf_json(p),
    ensures
        decoded_request(render(request_jsonv(rv))) == Some(rv),
{
    lemma_request_jsonv_wf(rv);
    lemma_json_round_trip(request_jsonv(rv));
    lemma_request_round_trip(rv);
}

/// The decimal text of an integer code is a well-formed number lexeme.
proof fn lemma_int_code_lexeme(v: i32)
    ensures
        is_number_lexeme(int_code_digits(v)),
{
    if v >= 0 {
        lemma_dec_digits_lexeme(v as nat);
    } else {
        let mag = (-(v as int)) as nat;
        lemma_dec_digits(mag);
        let lex = int_code_digits(v);
        assert(lex[0] == '-');
        assert(lex.len() == dec_digits(mag).len() + 1);
        assert(forall|k: int|
            0 <= k < dec_digits(mag).len() ==> #[trigger] lex[1 + k] == dec_digits(mag)[k]);
        assert forall|k: int| 1 <= k < lex.len() implies is_digit(#[trigger] lex[k]) by {
            assert(lex[1 + (k - 1)] == dec_digits(mag)[k - 1]);
        }
        lemma_num_end_exact_digits(lex, 1, lex.len() as int);
        assert(lex[1] == dec_digits(mag)[0]);
        assert(mag >= 1);
        if mag < 10 {
            assert(dec_digits(mag).len() == 1);
        } else {
            assert(dec_digits(mag)[0] != '0');
        }
        assert(frac_start(lex, lex.len() as int) == lex.len());
    }
}

/// A response encodes to a well-formed JSON value when its payloads are
/// well formed.
proof fn lemma_response_jsonv_wf(rv: JsonRpcResponseV)
    requires
        rv.result matches Some(p) ==> wf_json(p),
        rv.error matches Some(e) ==> (e.data matches Some(d) ==> wf_json(d)),
    ensures
        wf_json(response_jsonv(rv)),
{
    let ms = (response_jsonv(rv))->Obj_0;
    match rv.error {
        Some(e) => {
            lemma_int_code_lexeme(e.code);
            let ems = (crate::rpc::error_jsonv(e))->Obj_0;
            assert(wf_json(crate::rpc::error_jsonv(e))) by {
                assert(forall|k: int| 0 <= k < ems.len() ==> wf_json((#[trigger] ems[k]).1));
            }
        },
        None => {},
    }
    assert forall|k: int| 0 <= k < ms.len() implies wf_json((#[trigger] ms[k]).1) by {
        if k == 1 {
            match rv.id {
                crate::rpc::RequestIdV::Number(n) => {
                    lemma_dec_digits_lexeme(n as nat);
                },
                crate::rpc::RequestIdV::Str(_) => {},
            }
        }
    }
}

/// Encoding a response and decoding the resulting text is lossless,
/// provided the response carries exactly one of result and error.
pub proof fn lemma_response_text_round_trip(rv: JsonRpcResponseV)
    requires
        (rv.result is Some) != (rv.error is Some),
        rv.result matches Some(p) ==> wf_json(p),
        rv.error matches Some(e) ==> (e.data matches Some(d) ==> wf_json(d)),
    ensures
        decoded_response(render(response_jsonv(rv))) == Some(rv),
{
    lemma_response_jsonv_wf(rv);
    lemma_json_round_trip(response_jsonv(rv));
    lemma_response_round_trip(rv);
}

/// Every persisted token is a well-formed JSON value.
proof fn lemma_token_jsonv_wf(t: StoredTokenV)
    ensures
        wf_json(token_jsonv(t)),
{
    let ms = (token_jsonv(t))->Obj_0;
    assert forall|k: int| 0 <= k < ms.len() implies wf_json((#[trigger] ms[k]).1) by {
        if k == 2 {
            match t.expires_at {
                Some(e) => {
                    lemma_dec_digits_lexeme(e as nat);
                },
                None => {},
            }
        }
    }
}

/// Every persisted client is a well-formed JSON value.
proof fn lemma_client_jsonv_wf(c: StoredClientV)
    ensures
        wf_json(client_jsonv(c)),
{
    let ms = (client_jsonv(c))->Obj_0;
    assert(forall|k: int| 0 <= k < ms.len() ==> wf_json((#[trigger] ms[k]).1));
}

/// The persisted token map parses back entry for entry, in order.
proof fn lemma_token_members_round_trip(s: Seq<(String, StoredToken)>)
    ensures
        tokens_of_members(token_members(s)) == Some(token_entry_views(s)),
        forall|k: int| 0 <= k < token_members(s).len() ==> wf_json(
            (#[trigger] token_members(s)[k]).1,
        ),
        token_members(s).len() == s.len(),
    decreases s.len(),
{
    if s.len() == 0 {
        assert(token_members(s) =~= Seq::<(Seq<char>, JsonV)>::empty());
        assert(token_entry_views(s) =~= Seq::<(Seq<char>, StoredTokenV)>::empty());
    } else {
        lemma_token_members_round_trip(s.drop_first());
        let ms = token_members(s);
        assert(ms == seq![(s[0].0@, token_jsonv(s[0].1@))] + token_members(s.drop_first()));
        assert(ms.drop_first() =~= token_members(s.drop_first()));
        lemma_token_round_trip(s[0].1@);
        lemma_token_jsonv_wf(s[0].1@);
        assert(token_of_jsonv(ms[0].1) == Some(s[0].1@));
        assert(tokens_of_members(ms) == Some(
            seq![(s[0].0@, s[0].1@)] + tokens_of_members(ms.drop_first())->0,
        ));
        assert(seq![(s[0].0@, s[0].1@)] + token_entry_views(s.drop_first())
            =~= token_entry_views(s)) by {
            assert(forall|k: int|
                0 <= k < s.drop_first().len() ==> #[trigger] s.drop_first()[k] == s[k + 1]);
        }
        assert forall|k: int| 0 <= k < ms.len() implies wf_json((#[trigger] ms[k]).1) by {
            if k > 0 {
                assert(ms[k] == token_members(s.drop_first())[k - 1]);
            }
        }
    }
}

/// The persisted client map parses back entry for entry, in order.
proof fn lemma_client_members_round_trip(s: Seq<(String, StoredClient)>)
    ensures
        clients_of_members(client_members(s)) == Some(client_entry_views(s)),
        forall|k: int| 0 <= k < client_members(s).len() ==> wf_json(
            (#[trigger] client_members(s)[k]).1,
        ),
        client_members(s).len() == s.len(),
    decreases s.len(),
{
    if s.len() == 0 {
        assert(client_members(s) =~= Seq::<(Seq<char>, JsonV)>::empty());
        assert(client_entry_views(s) =~= Seq::<(Seq<char>, StoredClientV)>::empty());
    } else {
        lemma_client_members_round_trip(s.drop_first());
        let ms = client_members(s);
        assert(ms == seq![(s[0].0@, client_jsonv(s[0].1@))] + client_members(s.drop_first()));
        assert(ms.drop_first() =~= client_members(s.drop_first()));
        lemma_client_round_trip(s[0].1@);
        lemma_client_jsonv_wf(s[0].1@);
        assert(client_of_jsonv(ms[0].1) == Some(s[0].1@));
        assert(clients_of_members(ms) == Some(
            seq![(s[0].0@, s[0].1@)] + clients_of_members(ms.drop_first())->0,
        ));
        assert(seq![(s[0].0@, s[0].1@)] + client_entry_views(s.drop_first())
            =~= client_entry_views(s)) by {
            assert(forall|k: int|
                0 <= k < s.drop_first().len() ==> #[trigger] s.drop_first()[k] == s[k + 1]);
        }
        assert forall|k: int| 0 <= k < ms.len() implies wf_json((#[trigger] ms[k]).1) by {
            if k > 0 {
                assert(ms[k] == client_members(s.drop_first())[k - 1]);
            }
        }
    }
}

/// Writing the credential store and reloading the written text reproduces
/// every token and client entry, in order: the persisted form is lossless.
pub proof fn lemma_store_text_round_trip(
    tokens: Seq<(String, StoredToken)>,
    clients: Seq<(String, StoredClient)>,
)
    ensures
        sp_json(render(store_jsonv(tokens, clients))) == Some(store_jsonv(tokens, clients)),
        store_of_jsonv(store_jsonv(tokens, clients)) == Some(
            (token_entry_views(tokens), client_entry_views(clients)),
        ),
{
    lemma_token_members_round_trip(tokens);
    lemma_client_members_round_trip(clients);
    let v = store_jsonv(tokens, clients);
    let ms = v->Obj_0;
    reveal_strlit("tokens");
    reveal_strlit("clients");
    assert("tokens"@.len() == 6 && "clients"@.len() == 7);
    assert(ms[0] == ("tokens"@, JsonV::Obj(token_members(tokens))));
    assert(ms[1] == ("clients"@, JsonV::Obj(client_members(clients))));
    assert(ms[0].0 != ms[1].0);
    lemma_obj_lookup_at(ms, 0);
    lemma_obj_lookup_at(ms, 1);
    assert(wf_json(v)) by {
        assert forall|k: int| 0 <= k < ms.len() implies wf_json((#[trigger] ms[k]).1) by {
            assert(forall|k2: int|
                0 <= k2 < token_members(tokens).len() ==> wf_json(
                    (#[trigger] token_members(tokens)[k2]).1,
                ));
            assert(forall|k2: int|
                0 <= k2 < client_members(clients).len() ==> wf_json(
                    (#[trigger] client_members(clients)[k2]).1,
                ));
        }
    }
    lemma_json_round_trip(v);
}

} // verus!
