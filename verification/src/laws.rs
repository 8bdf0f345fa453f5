//! The laws the wire codec obeys, chiefly that reading a written record
//! gives back the record that was written.

use crate::error::MalformedMessage;
use crate::run_result::RunResultView;
use crate::text::{
    cons_parsed, dec_digit_char, dec_rep, digits_value, escape_char, escape_string, hex_char_val,
    hex_digit_char,
    is_digit_char, is_hex4, is_hex_char, is_value_token, is_ws_char, lemma_pow10_20,
    named_escape_char, parse_string_body, pow10, scan_digits, skip_ws,
};
use crate::run::RunView;
use crate::wire::{
    member_sep, parse_result_members, parse_run_members, quoted, render_result, render_run,
    spec_parse_result, spec_parse_run, PartialRun,
};
use crate::text::{is_scalar_char, lemma_scan_value_splice};
use vstd::prelude::*;

verus! {

/// Going to the code point and back yields the same character (below the
/// surrogate range).
proof fn lemma_char_u32_roundtrip(c: char)
    requires
        (c as u32) < 55296,
    ensures
        ((c as u32) as char) == c,
{
}

/// A character that stands for itself inside a quoted token.
pub open spec fn is_plain_char(c: char) -> bool {
    c != '"' && c != '\\' && (c as u32) >= 32
}

/// Escaping leaves a text of plain characters unchanged.
proof fn lemma_escape_plain(x: Seq<char>)
    requires
        forall|k: int| 0 <= k < x.len() ==> is_plain_char(x[k]),
    ensures
        escape_string(x) == x,
    decreases x.len(),
{
    if x.len() > 0 {
        assert(escape_char(x[0]) =~= seq![x[0]]);
        lemma_escape_plain(x.drop_first());
        assert(escape_string(x) =~= seq![x[0]] + x.drop_first());
        assert(seq![x[0]] + x.drop_first() =~= x);
    }
}

/// Reading a quoted token whose body is the escaped form of `x` gives back
/// exactly `x`, ending just past the closing quote.
proof fn lemma_parse_escaped(x: Seq<char>, s: Seq<char>, i: int)
    requires
        0 <= i,
        i + escape_string(x).len() + 1 <= s.len(),
        s.subrange(i, i + escape_string(x).len() as int) == escape_string(x),
        s[i + escape_string(x).len()] == '"',
    ensures
        parse_string_body(s, i) == Some((x, i + escape_string(x).len() + 1)),
    decreases x.len(),
{
    let esc = escape_string(x);
    assert forall|k: int| 0 <= k < esc.len() implies s[i + k] == #[trigger] esc[k] by {
        assert(s.subrange(i, i + esc.len() as int)[k] == esc[k]);
    }
    if x.len() == 0 {
        assert(x =~= Seq::<char>::empty());
    } else {
        let c = x[0];
        let ec = escape_char(c);
        let tail = x.drop_first();
        let rest = escape_string(tail);
        assert(esc =~= ec + rest);
        let i2 = i + ec.len();
        assert forall|k: int| 0 <= k < rest.len() implies #[trigger] s.subrange(
            i2,
            i2 + rest.len() as int,
        )[k] == rest[k] by {
            assert(esc[ec.len() + k] == rest[k]);
            assert(s[i2 + k] == esc[ec.len() + k]);
            assert(s.subrange(i2, i2 + rest.len() as int)[k] == s[i2 + k]);
        }
        assert(s.subrange(i2, i2 + rest.len() as int) =~= rest);
        assert(s[i2 + rest.len()] == '"');
        lemma_parse_escaped(tail, s, i2);
        if c == '"' {
            assert(esc[0] == '\\' && esc[1] == '"');
            assert(s[i] == '\\' && s[i + 1] == '"');
            assert(parse_string_body(s, i) == cons_parsed(c, parse_string_body(s, i + 2)));
        } else if c == '\\' {
            assert(esc[0] == '\\' && esc[1] == '\\');
            assert(s[i] == '\\' && s[i + 1] == '\\');
            assert(parse_string_body(s, i) == cons_parsed(c, parse_string_body(s, i + 2)));
        } else if (c as u32) < 32 {
            assert(esc[0] == '\\' && esc[1] == 'u' && esc[2] == '0' && esc[3] == '0');
            assert(esc[4] == hex_digit_char(((c as u32) / 16) as nat));
            assert(esc[5] == hex_digit_char(((c as u32) % 16) as nat));
            assert(s[i] == '\\' && s[i + 1] == 'u' && s[i + 2] == '0' && s[i + 3] == '0');
            assert(s[i + 4] == hex_digit_char(((c as u32) / 16) as nat));
            assert(s[i + 5] == hex_digit_char(((c as u32) % 16) as nat));
            assert(named_escape_char('u') is None);
            assert(is_hex_char('0') && hex_char_val('0') == 0);
            assert(is_hex_char(s[i + 4]) && hex_char_val(s[i + 4]) == (c as u32) / 16);
            assert(is_hex_char(s[i + 5]) && hex_char_val(s[i + 5]) == (c as u32) % 16);
            assert(is_hex4(s, i + 2));
            assert(crate::text::hex4_val(s, i + 2) == c as u32);
            lemma_char_u32_roundtrip(c);
            assert((crate::text::hex4_val(s, i + 2)) as char == c);
            assert(parse_string_body(s, i) == cons_parsed(c, parse_string_body(s, i + 6)));
        } else {
            assert(esc[0] == c);
            assert(s[i] == c && c != '"' && c != '\\');
            assert(parse_string_body(s, i) == cons_parsed(c, parse_string_body(s, i + 1)));
        }
        assert(seq![c] + tail =~= x);
    }
}

/// Every character of a decimal numeral is a digit, and there is at least
/// one of them.
proof fn lemma_dec_rep_digits(n: nat)
    ensures
        dec_rep(n).len() >= 1,
        forall|k: int| 0 <= k < dec_rep(n).len() ==> is_digit_char(#[trigger] dec_rep(n)[k]),
    decreases n,
{
    if n >= 10 {
        lemma_dec_rep_digits(n / 10);
    }
}

/// A number below ten to the `k` has at most `k` digits.
proof fn lemma_dec_rep_len(n: nat, k: nat)
    requires
        k >= 1,
        n < pow10(k),
    ensures
        dec_rep(n).len() <= k,
    decreases n,
{
    if n >= 10 {
        assert(pow10(k) == 10 * pow10((k - 1) as nat));
        lemma_dec_rep_len(n / 10, (k - 1) as nat);
    }
}

/// Scanning stops exactly at the end of a digit run.
proof fn lemma_scan_digit_run(s: Seq<char>, i: int, j: int)
    requires
        0 <= i <= j <= s.len(),
        forall|k: int| i <= k < j ==> is_digit_char(s[k]),
        j == s.len() || !is_digit_char(s[j]),
    ensures
        scan_digits(s, i) == j,
    decreases j - i,
{
    if i < j {
        lemma_scan_digit_run(s, i + 1, j);
    }
}

/// Reading back the decimal numeral of `n` yields `n`.
proof fn lemma_dec_rep_value(n: nat, s: Seq<char>, i: int)
    requires
        0 <= i,
        i + dec_rep(n).len() <= s.len(),
        s.subrange(i, i + dec_rep(n).len() as int) == dec_rep(n),
    ensures
        digits_value(s, i, i + dec_rep(n).len()) == n,
    decreases n,
{
    let d = dec_rep(n);
    assert forall|k: int| 0 <= k < d.len() implies s[i + k] == #[trigger] d[k] by {
        assert(s.subrange(i, i + d.len() as int)[k] == d[k]);
    }
    if n < 10 {
        assert(d[0] == dec_digit_char(n));
        assert(s[i] == dec_digit_char(n));
        assert(digits_value(s, i, i) == 0);
        assert((s[i] as u32) == n + 48);
        assert(digits_value(s, i, i + 1) == n);
    } else {
        let dprev = dec_rep(n / 10);
        assert(d =~= dprev.push(dec_digit_char(n % 10)));
        assert forall|k: int| 0 <= k < dprev.len() implies #[trigger] s.subrange(
            i,
            i + dprev.len() as int,
        )[k] == dprev[k] by {
            assert(dprev[k] == d[k]);
            assert(s[i + k] == d[k]);
            assert(s.subrange(i, i + dprev.len() as int)[k] == s[i + k]);
        }
        assert(s.subrange(i, i + dprev.len() as int) =~= dprev);
        lemma_dec_rep_value(n / 10, s, i);
        assert(d[d.len() - 1] == dec_digit_char(n % 10));
        assert(s[i + d.len() - 1] == dec_digit_char(n % 10));
        assert(digits_value(s, i, i + d.len()) == digits_value(s, i, i + d.len() - 1) * 10 + ((s[i
            + d.len() - 1] as u32) - 48));
    }
}

} // verus!

verus! {

/// The middle piece of a three-piece text is its own subrange.
proof fn lemma_subrange_of_concat(x: Seq<char>, y: Seq<char>, z: Seq<char>, s: Seq<char>)
    requires
        s == x + y + z,
    ensures
        s.subrange(x.len() as int, (x.len() + y.len()) as int) == y,
        forall|k: int| 0 <= k < y.len() ==> s[x.len() + k] == #[trigger] y[k],
{
    assert forall|k: int| 0 <= k < y.len() implies s[x.len() + k] == #[trigger] y[k] by {
        assert(s[x.len() + k] == (x + y + z)[x.len() + k]);
    }
    assert(s.subrange(x.len() as int, (x.len() + y.len()) as int) =~= y);
}

/// Every text of plain characters reads back from its quotes unchanged:
/// the `lemma_parse_escaped` hypotheses, restated for a written key.
proof fn lemma_key_facts(key: Seq<char>)
    requires
        forall|k: int| 0 <= k < key.len() ==> is_plain_char(key[k]),
    ensures
        escape_string(key) == key,
{
    lemma_escape_plain(key);
}

/// Reading the members `"statusCode":<numeral>}` from `i`, with no field
/// seen yet for the status, succeeds and ends at the text's end.
proof fn lemma_members_status_tail(s: Seq<char>, i: int, origin: Option<Seq<char>>, sc: usize)
    requires
        0 <= i,
        s.len() == i + 14 + dec_rep(sc as nat).len(),
        s.subrange(i, i + 13) == "\"statusCode\":"@,
        s.subrange(i + 13, i + 13 + dec_rep(sc as nat).len() as int) == dec_rep(sc as nat),
        s[s.len() - 1] == '}',
    ensures
        parse_result_members(s, i, origin, None) == Ok::<
            (Option<Seq<char>>, Option<int>, int),
            MalformedMessage,
        >((origin, Some(sc as int), s.len() as int)),
{
    reveal_strlit("\"statusCode\":");
    reveal_strlit("statusCode");
    reveal_strlit("originId");
    let lit = "\"statusCode\":"@;
    let d = dec_rep(sc as nat);
    lemma_dec_rep_digits(sc as nat);
    assert forall|k: int| 0 <= k < 13 implies s[i + k] == lit[k] by {
        assert(s.subrange(i, i + 13)[k] == lit[k]);
    }
    assert forall|k: int| 0 <= k < d.len() implies s[i + 13 + k] == #[trigger] d[k] by {
        assert(s.subrange(i + 13, i + 13 + d.len() as int)[k] == d[k]);
    }
    // the member's key
    assert(s[i] == lit[0]);
    assert(s[i] == '"');
    assert(!is_ws_char(s[i]));
    assert(skip_ws(s, i) == i);
    assert(forall|k: int| 0 <= k < "statusCode"@.len() ==> is_plain_char("statusCode"@[k]));
    lemma_key_facts("statusCode"@);
    assert(s.subrange(i + 1, i + 11) =~= "statusCode"@) by {
        assert forall|k: int| 0 <= k < 10 implies s.subrange(i + 1, i + 11)[k] == "statusCode"@[k] by {
            assert(s.subrange(i + 1, i + 11)[k] == s[i + 1 + k]);
            assert(s[i + (1 + k)] == lit[1 + k]);
        }
    }
    assert(s[i + 11] == lit[11]);
    assert(s[i + 11] == '"');
    lemma_parse_escaped("statusCode"@, s, i + 1);
    assert(parse_string_body(s, i + 1) == Some(("statusCode"@, i + 12int)));
    // the colon and the numeral
    assert(s[i + 12] == lit[12]);
    assert(s[i + 12] == ':');
    assert(skip_ws(s, i + 12) == i + 12);
    assert(is_digit_char(d[0]));
    assert(s[i + 13] == d[0]);
    assert(!is_ws_char(s[i + 13]));
    assert(skip_ws(s, i + 13) == i + 13);
    assert("statusCode"@ != "originId"@) by {
        assert("statusCode"@.len() != "originId"@.len());
    }
    let e = i + 13 + d.len();
    assert(s[e] == '}');
    assert(!is_digit_char('}'));
    assert forall|k: int| i + 13 <= k < e implies is_digit_char(s[k]) by {
        assert(s[i + 13 + (k - (i + 13))] == d[k - (i + 13)]);
        assert(is_digit_char(d[k - (i + 13)]));
    }
    lemma_scan_digit_run(s, i + 13, e as int);
    assert(scan_digits(s, i + 13) == e);
    assert(d.len() <= 20) by {
        lemma_pow10_20();
        assert(sc as nat <= usize::MAX as nat);
        assert((usize::MAX as int) < pow10(20));
        lemma_dec_rep_len(sc as nat, 20);
    }
    lemma_dec_rep_value(sc as nat, s, i + 13);
    assert(digits_value(s, i + 13, e as int) == sc as int);
    // the record's end
    assert(skip_ws(s, e as int) == e);
    assert(member_sep(s, e as int) == Ok::<(bool, int), MalformedMessage>((true, e + 1)));
    assert(e + 1 == s.len());
    assert(parse_result_members(s, i, origin, None) == Ok::<
        (Option<Seq<char>>, Option<int>, int),
        MalformedMessage,
    >((origin, Some(sc as int), s.len() as int)));
}

/// Round trip for the result payload: reading a written record gives back
/// exactly the record that was written, for every value of both fields.
#[verifier::rlimit(100)]
#[verifier::spinoff_prover]
pub proof fn lemma_result_round_trip(v: RunResultView)
    ensures
        spec_parse_result(render_result(v)) == Ok::<RunResultView, MalformedMessage>(v),
{
    reveal_strlit("\"statusCode\":");
    reveal_strlit("\"originId\":");
    reveal_strlit("statusCode");
    reveal_strlit("originId");
    let s = render_result(v);
    let d = dec_rep(v.status_code as nat);
    let lit2 = "\"statusCode\":"@;
    lemma_dec_rep_digits(v.status_code as nat);
    match v.origin_id {
        None => {
            assert(s =~= seq!['{'] + (lit2 + d) + seq!['}']);
            lemma_subrange_of_concat(seq!['{'], lit2 + d, seq!['}'], s);
            assert(s.subrange(1, 14) =~= lit2) by {
                assert forall|k: int| 0 <= k < 13 implies s.subrange(1, 14)[k] == lit2[k] by {
                    assert(s[1 + k] == (lit2 + d)[k]);
                }
            }
            assert(s.subrange(14, 14 + d.len() as int) =~= d) by {
                assert forall|k: int| 0 <= k < d.len() implies s.subrange(
                    14,
                    14 + d.len() as int,
                )[k] == #[trigger] d[k] by {
                    assert(s[1 + (13 + k)] == (lit2 + d)[13 + k]);
                }
            }
            assert(s[0] == '{') by {
                assert(s.len() == 15 + d.len());
                assert((seq!['{'] + (lit2 + d) + seq!['}'])[0] == '{');
            }
            assert(s[s.len() - 1] == '}') by {
                assert((seq!['{'] + (lit2 + d) + seq!['}'])[s.len() - 1] == '}');
            }
            assert(!is_ws_char('{'));
            assert(skip_ws(s, 0) == 0);
            lemma_members_status_tail(s, 1, None, v.status_code);
            assert(skip_ws(s, s.len() as int) == s.len());
            assert(spec_parse_result(s) == Ok::<RunResultView, MalformedMessage>(
                RunResultView { origin_id: None, status_code: v.status_code },
            ));
            assert((RunResultView { origin_id: None, status_code: v.status_code }) =~= v);
        },
        Some(x) => {
            let lit1 = "\"originId\":"@;
            let esc = escape_string(x);
            let ll = esc.len() as int;
            assert(s =~= seq!['{'] + (lit1 + quoted(x) + seq![',']) + (lit2 + d) + seq!['}']);
            // pieces of the first member
            assert(s.subrange(1, 12) =~= lit1) by {
                assert forall|k: int| 0 <= k < 11 implies s.subrange(1, 12)[k] == lit1[k] by {
                    assert(s =~= seq!['{'] + lit1 + (quoted(x) + seq![','] + (lit2 + d) + seq![
                        '}',
                    ]));
                    lemma_subrange_of_concat(
                        seq!['{'],
                        lit1,
                        quoted(x) + seq![','] + (lit2 + d) + seq!['}'],
                        s,
                    );
                }
            }
            assert forall|k: int| 0 <= k < 11 implies s[1 + k] == lit1[k] by {
                assert(s.subrange(1, 12)[k] == lit1[k]);
            }
            assert(s.subrange(13, 13 + ll) =~= esc) by {
                assert(s =~= (seq!['{'] + lit1 + seq!['"']) + esc + (seq!['"', ','] + (lit2 + d)
                    + seq!['}']));
                lemma_subrange_of_concat(
                    seq!['{'] + lit1 + seq!['"'],
                    esc,
                    seq!['"', ','] + (lit2 + d) + seq!['}'],
                    s,
                );
            }
            assert(s[0] == '{' && s[12] == '"' && s[13 + ll] == '"' && s[14 + ll] == ',') by {
                assert(s =~= (seq!['{'] + lit1) + (seq!['"'] + esc + seq!['"', ',']) + ((lit2 + d)
                    + seq!['}']));
                lemma_subrange_of_concat(
                    seq!['{'] + lit1,
                    seq!['"'] + esc + seq!['"', ','],
                    (lit2 + d) + seq!['}'],
                    s,
                );
                assert(((seq!['{'] + lit1) + (seq!['"'] + esc + seq!['"', ',']) + ((lit2 + d) + seq![
                    '}',
                ]))[0] == '{');
                assert((seq!['"'] + esc + seq!['"', ','])[0] == '"');
                assert((seq!['"'] + esc + seq!['"', ','])[1 + ll] == '"');
                assert((seq!['"'] + esc + seq!['"', ','])[2 + ll] == ',');
            }
            // the tail's pieces
            let base = 15 + ll;
            assert(s.subrange(base, base + 13) =~= lit2 && s.subrange(
                base + 13,
                base + 13 + d.len() as int,
            ) =~= d && s[s.len() - 1] == '}') by {
                assert(s =~= (seq!['{'] + lit1 + quoted(x) + seq![',']) + lit2 + (d + seq!['}']));
                lemma_subrange_of_concat(
                    seq!['{'] + lit1 + quoted(x) + seq![','],
                    lit2,
                    d + seq!['}'],
                    s,
                );
                assert(s =~= (seq!['{'] + lit1 + quoted(x) + seq![','] + lit2) + d + seq!['}']);
                lemma_subrange_of_concat(
                    seq!['{'] + lit1 + quoted(x) + seq![','] + lit2,
                    d,
                    seq!['}'],
                    s,
                );
                assert(s =~= (seq!['{'] + lit1 + quoted(x) + seq![','] + lit2 + d) + seq!['}']
                    + Seq::<char>::empty());
                lemma_subrange_of_concat(
                    seq!['{'] + lit1 + quoted(x) + seq![','] + lit2 + d,
                    seq!['}'],
                    Seq::<char>::empty(),
                    s,
                );
            }
            // walk the first member
            assert(!is_ws_char('{'));
            assert(skip_ws(s, 0) == 0);
            assert(s[1] == lit1[0]);
            assert(s[1] == '"');
            assert(skip_ws(s, 1) == 1);
            assert(forall|k: int| 0 <= k < "originId"@.len() ==> is_plain_char("originId"@[k]));
            lemma_key_facts("originId"@);
            assert(s.subrange(2, 10) =~= "originId"@) by {
                assert forall|k: int| 0 <= k < 8 implies s.subrange(2, 10)[k] == "originId"@[k] by {
                    assert(s[1 + (1 + k)] == lit1[1 + k]);
                }
            }
            assert(s[10] == lit1[9]);
            assert(s[10] == '"');
            lemma_parse_escaped("originId"@, s, 2);
            assert(parse_string_body(s, 2) == Some(("originId"@, 11int)));
            assert(s[11] == lit1[10]);
            assert(s[11] == ':');
            assert(skip_ws(s, 11) == 11);
            assert(skip_ws(s, 12) == 12);
            lemma_parse_escaped(x, s, 13);
            assert(parse_string_body(s, 13) == Some((x, 14 + ll)));
            assert(skip_ws(s, 14 + ll) == 14 + ll);
            assert(member_sep(s, 14 + ll) == Ok::<(bool, int), MalformedMessage>((false, base)));
            // then the tail
            assert(s.len() == base + 14 + d.len());
            lemma_members_status_tail(s, base, Some(x), v.status_code);
            assert(parse_result_members(s, 1, None, None) == Ok::<
                (Option<Seq<char>>, Option<int>, int),
                MalformedMessage,
            >((Some(x), Some(v.status_code as int), s.len() as int)));
            assert(skip_ws(s, s.len() as int) == s.len());
            assert(spec_parse_result(s) == Ok::<RunResultView, MalformedMessage>(
                RunResultView { origin_id: Some(x), status_code: v.status_code },
            ));
            assert((RunResultView { origin_id: Some(x), status_code: v.status_code }) =~= v);
        },
    }
}

} // verus!

verus! {

/// Omission for the result payload: when the correlation token is absent,
/// the written record consists of the brace-delimited status member alone;
/// no `originId` key appears in it.
pub proof fn lemma_result_omission(v: RunResultView)
    requires
        v.origin_id is None,
    ensures
        render_result(v) == seq!['{'] + "\"statusCode\":"@ + dec_rep(v.status_code as nat) + seq![
            '}',
        ],
{
    assert(render_result(v) =~= seq!['{'] + "\"statusCode\":"@ + dec_rep(v.status_code as nat)
        + seq!['}']);
}

/// Omission for the run request: an absent optional field contributes
/// nothing to the written record; with every optional field absent the
/// record consists of the brace-delimited target member alone.
pub proof fn lemma_run_omission(v: RunView)
    requires
        v.origin_id is None,
        v.arguments is None,
        v.data_kind is None,
        v.data is None,
    ensures
        render_run(v) == seq!['{'] + "\"target\":"@ + quoted(v.target) + seq!['}'],
{
    assert(render_run(v) =~= seq!['{'] + "\"target\":"@ + quoted(v.target) + seq!['}']);
}

} // verus!

verus! {

/// What an optional quoted member contributes to a written run request.
pub open spec fn str_piece(key_text: Seq<char>, o: Option<Seq<char>>) -> Seq<char> {
    match o {
        Some(x) => seq![','] + key_text + quoted(x),
        None => Seq::<char>::empty(),
    }
}

/// What the extension member contributes to a written run request.
pub open spec fn data_piece(o: Option<Seq<char>>) -> Seq<char> {
    match o {
        Some(t) => seq![','] + "\"data\":"@ + t,
        None => Seq::<char>::empty(),
    }
}

/// Reading one quoted member `"<key>":"<escaped x>"` at `i` records `x`
/// under its field and moves past the member's separator.
proof fn lemma_run_member_string(
    s: Seq<char>,
    i: int,
    key: Seq<char>,
    x: Seq<char>,
    acc: PartialRun,
    acc2: PartialRun,
)
    requires
        0 <= i,
        i + 5 + key.len() + escape_string(x).len() < s.len(),
        s[i] == '"',
        s.subrange(i + 1, i + 1 + key.len() as int) == key,
        s[i + 1 + key.len()] == '"',
        s[i + 2 + key.len()] == ':',
        s[i + 3 + key.len()] == '"',
        s.subrange(i + 4 + key.len() as int, i + 4 + key.len() + escape_string(x).len() as int)
            == escape_string(x),
        s[i + 4 + key.len() + escape_string(x).len()] == '"',
        forall|k: int| 0 <= k < key.len() ==> is_plain_char(key[k]),
        (key == "target"@ && acc.target is None && acc2 == (PartialRun { target: Some(x), ..acc }))
            || (key == "originId"@ && acc.origin_id is None && acc2 == (PartialRun {
            origin_id: Some(x),
            ..acc
        })) || (key == "arguments"@ && acc.arguments is None && acc2 == (PartialRun {
            arguments: Some(x),
            ..acc
        })) || (key == "dataKind"@ && acc.data_kind is None && acc2 == (PartialRun {
            data_kind: Some(x),
            ..acc
        })),
    ensures
        s[i + 5 + key.len() + escape_string(x).len()] == ',' ==> parse_run_members(s, i, acc)
            == parse_run_members(s, i + 6 + key.len() + escape_string(x).len(), acc2),
        s[i + 5 + key.len() + escape_string(x).len()] == '}' ==> parse_run_members(s, i, acc)
            == Ok::<(PartialRun, int), MalformedMessage>(
            (acc2, i + 6 + key.len() + escape_string(x).len()),
        ),
{
    reveal_strlit("target");
    reveal_strlit("originId");
    reveal_strlit("arguments");
    reveal_strlit("dataKind");
    reveal_strlit("data");
    let kl = key.len() as int;
    let ll = escape_string(x).len() as int;
    let q = i + 5 + kl + ll;
    assert(!is_ws_char('"'));
    assert(skip_ws(s, i) == i);
    lemma_key_facts(key);
    assert(s[i + 1 + kl] == '"');
    lemma_parse_escaped(key, s, i + 1);
    assert(parse_string_body(s, i + 1) == Some((key, i + 2 + kl)));
    assert(!is_ws_char(':'));
    assert(skip_ws(s, i + 2 + kl) == i + 2 + kl);
    assert(skip_ws(s, i + 3 + kl) == i + 3 + kl);
    lemma_parse_escaped(x, s, i + 4 + kl);
    assert(parse_string_body(s, i + 4 + kl) == Some((x, q)));
    if s[q] == ',' || s[q] == '}' {
        assert(!is_ws_char(s[q]));
        assert(skip_ws(s, q) == q);
        if s[q] == ',' {
            assert(member_sep(s, q) == Ok::<(bool, int), MalformedMessage>((false, q + 1)));
        } else {
            assert(member_sep(s, q) == Ok::<(bool, int), MalformedMessage>((true, q + 1)));
        }
        assert(key == "target"@ || key == "originId"@ || key == "arguments"@ || key
            == "dataKind"@);
        assert("target"@ != "originId"@ && "target"@ != "arguments"@ && "target"@ != "dataKind"@
            && "originId"@ != "arguments"@ && "originId"@ != "dataKind"@ && "arguments"@
            != "dataKind"@) by {
            assert("target"@.len() == 6);
            assert("originId"@.len() == 8);
            assert("arguments"@.len() == 9);
            assert("dataKind"@.len() == 8);
            assert("originId"@[0] == 'o' && "dataKind"@[0] == 'd');
        }
        assert(key != "data"@) by {
            assert("data"@.len() == 4);
        }
    }
}

/// Reading the extension member `"data":<token>` at `i` records the token
/// and moves past the member's separator.
proof fn lemma_run_member_data(
    s: Seq<char>,
    i: int,
    t: Seq<char>,
    acc: PartialRun,
    acc2: PartialRun,
)
    requires
        0 <= i,
        i + 7 + t.len() < s.len(),
        s[i] == '"',
        s.subrange(i + 1, i + 5) == "data"@,
        s[i + 5] == '"',
        s[i + 6] == ':',
        s.subrange(i + 7, i + 7 + t.len() as int) == t,
        is_value_token(t),
        acc.data is None,
        acc2 == (PartialRun { data: Some(t), ..acc }),
        s[i + 7 + t.len()] == ',' || s[i + 7 + t.len()] == '}',
    ensures
        s[i + 7 + t.len()] == ',' ==> parse_run_members(s, i, acc) == parse_run_members(
            s,
            i + 8 + t.len(),
            acc2,
        ),
        s[i + 7 + t.len()] == '}' ==> parse_run_members(s, i, acc) == Ok::<
            (PartialRun, int),
            MalformedMessage,
        >((acc2, i + 8 + t.len())),
{
    reveal_strlit("target");
    reveal_strlit("originId");
    reveal_strlit("arguments");
    reveal_strlit("dataKind");
    reveal_strlit("data");
    let q = i + 7 + t.len() as int;
    assert(!is_ws_char('"'));
    assert(skip_ws(s, i) == i);
    assert(forall|k: int| 0 <= k < "data"@.len() ==> is_plain_char("data"@[k]));
    lemma_key_facts("data"@);
    lemma_parse_escaped("data"@, s, i + 1);
    assert(parse_string_body(s, i + 1) == Some(("data"@, i + 6)));
    assert(!is_ws_char(':'));
    assert(skip_ws(s, i + 6) == i + 6);
    // the token's first character is never whitespace: otherwise no value
    // could start there
    assert(s.subrange(i + 7, i + 7 + t.len() as int)[0] == t[0]);
    assert(s[i + 7] == t[0]);
    assert(!is_ws_char(t[0])) by {
        if is_ws_char(t[0]) {
            assert(crate::text::scan_value(t, 0) is None);
        }
    }
    assert(skip_ws(s, i + 7) == i + 7);
    assert("data"@ != "target"@ && "data"@ != "originId"@ && "data"@ != "arguments"@ && "data"@
        != "dataKind"@) by {
        assert("data"@.len() == 4);
    }
    assert(!is_scalar_char(s[q]));
    lemma_scan_value_splice(t, s, i + 7);
    assert(crate::text::scan_value(s, i + 7) == Some(q));
    assert(s.subrange(i + 7, q) == t);
    assert(!is_ws_char(s[q]));
    assert(skip_ws(s, q) == q);
}

} // verus!

verus! {

/// Reading the record's tail from `q`: the extension member if present,
/// then the closing brace.
#[verifier::rlimit(100)]
#[verifier::spinoff_prover]
proof fn lemma_stage_data(v: RunView, s: Seq<char>, q: int, acc: PartialRun)
    requires
        v.data matches Some(t) ==> is_value_token(t),
        1 <= q,
        q + data_piece(v.data).len() + 1 == s.len(),
        s.subrange(q, s.len() as int) == data_piece(v.data) + seq!['}'],
        acc.data is None,
    ensures
        v.data is None ==> s[q] == '}' && q + 1 == s.len(),
        v.data is Some ==> s[q] == ',' && parse_run_members(s, q + 1, acc) == Ok::<
            (PartialRun, int),
            MalformedMessage,
        >((PartialRun { data: v.data, ..acc }, s.len() as int)),
{
    reveal_strlit("\"data\":");
    reveal_strlit("data");
    let suf = data_piece(v.data) + seq!['}'];
    assert forall|k: int| 0 <= k < suf.len() implies s[q + k] == #[trigger] suf[k] by {
        assert(s.subrange(q, s.len() as int)[k] == suf[k]);
    }
    match v.data {
        None => {
            assert(suf =~= seq!['}']);
            assert(s[q] == suf[0]);
        },
        Some(t) => {
            let lit = "\"data\":"@;
            assert(lit.len() == 7);
            let lead = seq![','] + lit;
            assert(suf =~= lead + t + seq!['}']);
            assert(s[q] == suf[0] && suf[0] == ',');
            assert(s[q + 1] == suf[1] && suf[1] == '"');
            assert(s.subrange(q + 2, q + 6) =~= "data"@) by {
                assert forall|j: int| 0 <= j < 4 implies s.subrange(q + 2, q + 6)[j]
                    == "data"@[j] by {
                    assert(s[q + (2 + j)] == suf[2 + j]);
                    assert(suf[2 + j] == lit[1 + j]);
                }
            }
            assert(s[q + 6] == suf[6] && suf[6] == '"');
            assert(s[q + 7] == suf[7] && suf[7] == ':');
            let tl = t.len() as int;
            assert(s.subrange(q + 8, q + 8 + tl) =~= t) by {
                assert forall|j: int| 0 <= j < tl implies s.subrange(q + 8, q + 8 + tl)[j]
                    == t[j] by {
                    assert(s[q + (8 + j)] == suf[8 + j]);
                    assert(suf[8 + j] == t[j]);
                }
            }
            assert(s[q + 8 + tl] == suf[8 + tl] && suf[8 + tl] == '}');
            let acc2 = PartialRun { data: Some(t), ..acc };
            lemma_run_member_data(s, q + 1, t, acc, acc2);
            assert(parse_run_members(s, q + 1, acc) == Ok::<(PartialRun, int), MalformedMessage>(
                (acc2, q + 9 + tl),
            ));
            assert(q + 9 + tl == s.len());
        },
    }
}

/// Reading the record's tail from `q`: the shape tag if present, then the
/// extension member if present, then the closing brace.
#[verifier::rlimit(100)]
#[verifier::spinoff_prover]
proof fn lemma_stage_kind(v: RunView, s: Seq<char>, q: int, acc: PartialRun)
    requires
        v.data matches Some(t) ==> is_value_token(t),
        1 <= q,
        q + str_piece("\"dataKind\":"@, v.data_kind).len() + data_piece(v.data).len() + 1
            == s.len(),
        s.subrange(q, s.len() as int) == str_piece("\"dataKind\":"@, v.data_kind) + data_piece(
            v.data,
        ) + seq!['}'],
        acc.data_kind is None,
        acc.data is None,
    ensures
        v.data_kind is None && v.data is None ==> s[q] == '}' && q + 1 == s.len(),
        v.data_kind is Some || v.data is Some ==> s[q] == ',' && parse_run_members(s, q + 1, acc)
            == Ok::<(PartialRun, int), MalformedMessage>(
            (PartialRun { data_kind: v.data_kind, data: v.data, ..acc }, s.len() as int),
        ),
{
    reveal_strlit("\"dataKind\":");
    reveal_strlit("dataKind");
    match v.data_kind {
        None => {
            assert(str_piece("\"dataKind\":"@, v.data_kind) =~= Seq::<char>::empty());
            assert(s.subrange(q, s.len() as int) =~= data_piece(v.data) + seq!['}']);
            lemma_stage_data(v, s, q, acc);
            if v.data is Some {
                assert((PartialRun { data: v.data, ..acc }) =~= (PartialRun {
                    data_kind: v.data_kind,
                    data: v.data,
                    ..acc
                }));
            }
        },
        Some(x) => {
            let lit = "\"dataKind\":"@;
            assert(lit.len() == 11);
            let esc = escape_string(x);
            let ll = esc.len() as int;
            let suf = s.subrange(q, s.len() as int);
            assert forall|k: int| 0 <= k < suf.len() implies s[q + k] == #[trigger] suf[k] by {
                assert(s.subrange(q, s.len() as int)[k] == suf[k]);
            }
            let rest = data_piece(v.data) + seq!['}'];
            assert(suf =~= (seq![','] + lit) + (seq!['"'] + esc + seq!['"']) + rest);
            assert(s[q] == suf[0] && suf[0] == ',');
            assert(s[q + 1] == suf[1] && suf[1] == lit[0] && lit[0] == '"');
            assert(s.subrange(q + 2, q + 10) =~= "dataKind"@) by {
                assert forall|j: int| 0 <= j < 8 implies s.subrange(q + 2, q + 10)[j]
                    == "dataKind"@[j] by {
                    assert(s[q + (2 + j)] == suf[2 + j]);
                    assert(suf[2 + j] == lit[1 + j]);
                }
            }
            assert(s[q + 10] == suf[10] && suf[10] == lit[9] && lit[9] == '"');
            assert(s[q + 11] == suf[11] && suf[11] == lit[10] && lit[10] == ':');
            assert(s[q + 12] == suf[12] && suf[12] == '"');
            assert(s.subrange(q + 13, q + 13 + ll) =~= esc) by {
                assert forall|j: int| 0 <= j < ll implies s.subrange(q + 13, q + 13 + ll)[j]
                    == esc[j] by {
                    assert(s[q + (13 + j)] == suf[13 + j]);
                    assert(suf[13 + j] == esc[j]);
                }
            }
            assert(s[q + 13 + ll] == suf[13 + ll] && suf[13 + ll] == '"');
            let q2 = q + 14 + ll;
            assert(s.subrange(q2, s.len() as int) =~= rest) by {
                assert forall|j: int| 0 <= j < rest.len() implies s.subrange(
                    q2,
                    s.len() as int,
                )[j] == #[trigger] rest[j] by {
                    assert(s[q + (14 + ll + j)] == suf[14 + ll + j]);
                    assert(suf[14 + ll + j] == rest[j]);
                }
            }
            assert(forall|k: int| 0 <= k < "dataKind"@.len() ==> is_plain_char("dataKind"@[k]));
            let acc2 = PartialRun { data_kind: Some(x), ..acc };
            lemma_run_member_string(s, q + 1, "dataKind"@, x, acc, acc2);
            lemma_stage_data(v, s, q2, acc2);
            if v.data is Some {
                assert(s[q2] == ',');
                assert(parse_run_members(s, q + 1, acc) == Ok::<
                    (PartialRun, int),
                    MalformedMessage,
                >((PartialRun { data: v.data, ..acc2 }, s.len() as int)));
                assert((PartialRun { data: v.data, ..acc2 }) =~= (PartialRun {
                    data_kind: v.data_kind,
                    data: v.data,
                    ..acc
                }));
            } else {
                assert(s[q2] == '}' && q2 + 1 == s.len());
                assert(parse_run_members(s, q + 1, acc) == Ok::<
                    (PartialRun, int),
                    MalformedMessage,
                >((acc2, s.len() as int)));
                assert(acc2 =~= (PartialRun { data_kind: v.data_kind, data: v.data, ..acc }));
            }
        },
    }
}

} // verus!

verus! {

/// Reading the record's tail from `q`: the arguments member if present,
/// then the later optional members, then the closing brace.
#[verifier::rlimit(100)]
#[verifier::spinoff_prover]
proof fn lemma_stage_args(v: RunView, s: Seq<char>, q: int, acc: PartialRun)
    requires
        v.data matches Some(t) ==> is_value_token(t),
        1 <= q,
        q + str_piece("\"arguments\":"@, v.arguments).len() + str_piece(
            "\"dataKind\":"@,
            v.data_kind,
        ).len() + data_piece(v.data).len() + 1 == s.len(),
        s.subrange(q, s.len() as int) == str_piece("\"arguments\":"@, v.arguments) + str_piece(
            "\"dataKind\":"@,
            v.data_kind,
        ) + data_piece(v.data) + seq!['}'],
        acc.arguments is None,
        acc.data_kind is None,
        acc.data is None,
    ensures
        v.arguments is None && v.data_kind is None && v.data is None ==> s[q] == '}' && q + 1
            == s.len(),
        v.arguments is Some || v.data_kind is Some || v.data is Some ==> s[q] == ','
            && parse_run_members(s, q + 1, acc) == Ok::<(PartialRun, int), MalformedMessage>(
            (
                PartialRun {
                    arguments: v.arguments,
                    data_kind: v.data_kind,
                    data: v.data,
                    ..acc
                },
                s.len() as int,
            ),
        ),
{
    reveal_strlit("\"arguments\":");
    reveal_strlit("arguments");
    match v.arguments {
        None => {
            assert(str_piece("\"arguments\":"@, v.arguments) =~= Seq::<char>::empty());
            assert(s.subrange(q, s.len() as int) =~= str_piece("\"dataKind\":"@, v.data_kind)
                + data_piece(v.data) + seq!['}']);
            lemma_stage_kind(v, s, q, acc);
            if v.data_kind is Some || v.data is Some {
                assert((PartialRun { data_kind: v.data_kind, data: v.data, ..acc }) =~= (PartialRun {
                    arguments: v.arguments,
                    data_kind: v.data_kind,
                    data: v.data,
                    ..acc
                }));
            }
        },
        Some(x) => {
            let lit = "\"arguments\":"@;
            assert(lit.len() == 12);
            let esc = escape_string(x);
            let ll = esc.len() as int;
            let suf = s.subrange(q, s.len() as int);
            assert forall|k: int| 0 <= k < suf.len() implies s[q + k] == #[trigger] suf[k] by {
                assert(s.subrange(q, s.len() as int)[k] == suf[k]);
            }
            let rest = str_piece("\"dataKind\":"@, v.data_kind) + data_piece(v.data) + seq!['}'];
            assert(suf =~= (seq![','] + lit) + (seq!['"'] + esc + seq!['"']) + rest);
            assert(s[q] == suf[0] && suf[0] == ',');
            assert(s[q + 1] == suf[1] && suf[1] == lit[0] && lit[0] == '"');
            assert(s.subrange(q + 2, q + 11) =~= "arguments"@) by {
                assert forall|j: int| 0 <= j < 9 implies s.subrange(q + 2, q + 11)[j]
                    == "arguments"@[j] by {
                    assert(s[q + (2 + j)] == suf[2 + j]);
                    assert(suf[2 + j] == lit[1 + j]);
                }
            }
            assert(s[q + 11] == suf[11] && suf[11] == lit[10] && lit[10] == '"');
            assert(s[q + 12] == suf[12] && suf[12] == lit[11] && lit[11] == ':');
            assert(s[q + 13] == suf[13] && suf[13] == '"');
            assert(s.subrange(q + 14, q + 14 + ll) =~= esc) by {
                assert forall|j: int| 0 <= j < ll implies s.subrange(q + 14, q + 14 + ll)[j]
                    == esc[j] by {
                    assert(s[q + (14 + j)] == suf[14 + j]);
                    assert(suf[14 + j] == esc[j]);
                }
            }
            assert(s[q + 14 + ll] == suf[14 + ll] && suf[14 + ll] == '"');
            let q2 = q + 15 + ll;
            assert(s.subrange(q2, s.len() as int) =~= rest) by {
                assert forall|j: int| 0 <= j < rest.len() implies s.subrange(
                    q2,
                    s.len() as int,
                )[j] == #[trigger] rest[j] by {
                    assert(s[q + (15 + ll + j)] == suf[15 + ll + j]);
                    assert(suf[15 + ll + j] == rest[j]);
                }
            }
            assert(forall|k: int| 0 <= k < "arguments"@.len() ==> is_plain_char("arguments"@[k]));
            let acc2 = PartialRun { arguments: Some(x), ..acc };
            lemma_run_member_string(s, q + 1, "arguments"@, x, acc, acc2);
            lemma_stage_kind(v, s, q2, acc2);
            if v.data_kind is Some || v.data is Some {
                assert(s[q2] == ',');
                assert(parse_run_members(s, q + 1, acc) == Ok::<
                    (PartialRun, int),
                    MalformedMessage,
                >((PartialRun { data_kind: v.data_kind, data: v.data, ..acc2 }, s.len() as int)));
                assert((PartialRun { data_kind: v.data_kind, data: v.data, ..acc2 }) =~= (PartialRun {
                    arguments: v.arguments,
                    data_kind: v.data_kind,
                    data: v.data,
                    ..acc
                }));
            } else {
                assert(s[q2] == '}' && q2 + 1 == s.len());
                assert(parse_run_members(s, q + 1, acc) == Ok::<
                    (PartialRun, int),
                    MalformedMessage,
                >((acc2, s.len() as int)));
                assert(acc2 =~= (PartialRun {
                    arguments: v.arguments,
                    data_kind: v.data_kind,
                    data: v.data,
                    ..acc
                }));
            }
        },
    }
}

/// Reading the record's tail from `q`: the correlation token if present,
/// then the later optional members, then the closing brace.
#[verifier::rlimit(100)]
#[verifier::spinoff_prover]
proof fn lemma_stage_origin(v: RunView, s: Seq<char>, q: int, acc: PartialRun)
    requires
        v.data matches Some(t) ==> is_value_token(t),
        1 <= q,
        q + str_piece("\"originId\":"@, v.origin_id).len() + str_piece(
            "\"arguments\":"@,
            v.arguments,
        ).len() + str_piece("\"dataKind\":"@, v.data_kind).len() + data_piece(v.data).len() + 1
            == s.len(),
        s.subrange(q, s.len() as int) == str_piece("\"originId\":"@, v.origin_id) + str_piece(
            "\"arguments\":"@,
            v.arguments,
        ) + str_piece("\"dataKind\":"@, v.data_kind) + data_piece(v.data) + seq!['}'],
        acc.origin_id is None,
        acc.arguments is None,
        acc.data_kind is None,
        acc.data is None,
    ensures
        v.origin_id is None && v.arguments is None && v.data_kind is None && v.data is None ==> s[q]
            == '}' && q + 1 == s.len(),
        v.origin_id is Some || v.arguments is Some || v.data_kind is Some || v.data is Some ==> s[q]
            == ',' && parse_run_members(s, q + 1, acc) == Ok::<
            (PartialRun, int),
            MalformedMessage,
        >(
            (
                PartialRun {
                    origin_id: v.origin_id,
                    arguments: v.arguments,
                    data_kind: v.data_kind,
                    data: v.data,
                    ..acc
                },
                s.len() as int,
            ),
        ),
{
    reveal_strlit("\"originId\":");
    reveal_strlit("originId");
    match v.origin_id {
        None => {
            assert(str_piece("\"originId\":"@, v.origin_id) =~= Seq::<char>::empty());
            assert(s.subrange(q, s.len() as int) =~= str_piece("\"arguments\":"@, v.arguments)
                + str_piece("\"dataKind\":"@, v.data_kind) + data_piece(v.data) + seq!['}']);
            lemma_stage_args(v, s, q, acc);
            if v.arguments is Some || v.data_kind is Some || v.data is Some {
                assert((PartialRun {
                    arguments: v.arguments,
                    data_kind: v.data_kind,
                    data: v.data,
                    ..acc
                }) =~= (PartialRun {
                    origin_id: v.origin_id,
                    arguments: v.arguments,
                    data_kind: v.data_kind,
                    data: v.data,
                    ..acc
                }));
            }
        },
        Some(x) => {
            let lit = "\"originId\":"@;
            assert(lit.len() == 11);
            let esc = escape_string(x);
            let ll = esc.len() as int;
            let suf = s.subrange(q, s.len() as int);
            assert forall|k: int| 0 <= k < suf.len() implies s[q + k] == #[trigger] suf[k] by {
                assert(s.subrange(q, s.len() as int)[k] == suf[k]);
            }
            let rest = str_piece("\"arguments\":"@, v.arguments) + str_piece(
                "\"dataKind\":"@,
                v.data_kind,
            ) + data_piece(v.data) + seq!['}'];
            assert(suf =~= (seq![','] + lit) + (seq!['"'] + esc + seq!['"']) + rest);
            assert(s[q] == suf[0] && suf[0] == ',');
            assert(s[q + 1] == suf[1] && suf[1] == lit[0] && lit[0] == '"');
            assert(s.subrange(q + 2, q + 10) =~= "originId"@) by {
                assert forall|j: int| 0 <= j < 8 implies s.subrange(q + 2, q + 10)[j]
                    == "originId"@[j] by {
                    assert(s[q + (2 + j)] == suf[2 + j]);
                    assert(suf[2 + j] == lit[1 + j]);
                }
            }
            assert(s[q + 10] == suf[10] && suf[10] == lit[9] && lit[9] == '"');
            assert(s[q + 11] == suf[11] && suf[11] == lit[10] && lit[10] == ':');
            assert(s[q + 12] == suf[12] && suf[12] == '"');
            assert(s.subrange(q + 13, q + 13 + ll) =~= esc) by {
                assert forall|j: int| 0 <= j < ll implies s.subrange(q + 13, q + 13 + ll)[j]
                    == esc[j] by {
                    assert(s[q + (13 + j)] == suf[13 + j]);
                    assert(suf[13 + j] == esc[j]);
                }
            }
            assert(s[q + 13 + ll] == suf[13 + ll] && suf[13 + ll] == '"');
            let q2 = q + 14 + ll;
            assert(s.subrange(q2, s.len() as int) =~= rest) by {
                assert forall|j: int| 0 <= j < rest.len() implies s.subrange(
                    q2,
                    s.len() as int,
                )[j] == #[trigger] rest[j] by {
                    assert(s[q + (14 + ll + j)] == suf[14 + ll + j]);
                    assert(suf[14 + ll + j] == rest[j]);
                }
            }
            assert(forall|k: int| 0 <= k < "originId"@.len() ==> is_plain_char("originId"@[k]));
            let acc2 = PartialRun { origin_id: Some(x), ..acc };
            lemma_run_member_string(s, q + 1, "originId"@, x, acc, acc2);
            lemma_stage_args(v, s, q2, acc2);
            if v.arguments is Some || v.data_kind is Some || v.data is Some {
                assert(s[q2] == ',');
                assert(parse_run_members(s, q + 1, acc) == Ok::<
                    (PartialRun, int),
                    MalformedMessage,
                >(
                    (
                        PartialRun {
                            arguments: v.arguments,
                            data_kind: v.data_kind,
                            data: v.data,
                            ..acc2
                        },
                        s.len() as int,
                    ),
                ));
                assert((PartialRun {
                    arguments: v.arguments,
                    data_kind: v.data_kind,
                    data: v.data,
                    ..acc2
                }) =~= (PartialRun {
                    origin_id: v.origin_id,
                    arguments: v.arguments,
                    data_kind: v.data_kind,
                    data: v.data,
                    ..acc
                }));
            } else {
                assert(s[q2] == '}' && q2 + 1 == s.len());
                assert(parse_run_members(s, q + 1, acc) == Ok::<
                    (PartialRun, int),
                    MalformedMessage,
                >((acc2, s.len() as int)));
                assert(acc2 =~= (PartialRun {
                    origin_id: v.origin_id,
                    arguments: v.arguments,
                    data_kind: v.data_kind,
                    data: v.data,
                    ..acc
                }));
            }
        },
    }
}

} // verus!

verus! {

/// Round trip for the run request: reading a written record gives back
/// exactly the record that was written, for every combination of present
/// and absent optional fields. The extension value must be well-framed,
/// which every `ExtensionData` guarantees by construction.
#[verifier::rlimit(100)]
#[verifier::spinoff_prover]
pub proof fn lemma_run_round_trip(v: RunView)
    requires
        v.data matches Some(t) ==> is_value_token(t),
    ensures
        spec_parse_run(render_run(v)) == Ok::<RunView, MalformedMessage>(v),
{
    reveal_strlit("\"target\":");
    reveal_strlit("target");
    let s = render_run(v);
    let lit = "\"target\":"@;
    assert(lit.len() == 9);
    let esc = escape_string(v.target);
    let ll = esc.len() as int;
    let rest = str_piece("\"originId\":"@, v.origin_id) + str_piece("\"arguments\":"@, v.arguments)
        + str_piece("\"dataKind\":"@, v.data_kind) + data_piece(v.data) + seq!['}'];
    let w = (seq!['{'] + lit) + (seq!['"'] + esc + seq!['"']) + rest;
    assert(s =~= w);
    assert(s[0] == w[0] && w[0] == '{');
    assert(s[1] == w[1] && w[1] == lit[0] && lit[0] == '"');
    assert(s.subrange(2, 8) =~= "target"@) by {
        assert forall|j: int| 0 <= j < 6 implies s.subrange(2, 8)[j] == "target"@[j] by {
            assert(s[2 + j] == w[2 + j]);
            assert(w[2 + j] == lit[1 + j]);
        }
    }
    assert(s[8] == w[8] && w[8] == lit[7] && lit[7] == '"');
    assert(s[9] == w[9] && w[9] == lit[8] && lit[8] == ':');
    assert(s[10] == w[10] && w[10] == '"');
    assert(s.subrange(11, 11 + ll) =~= esc) by {
        assert forall|j: int| 0 <= j < ll implies s.subrange(11, 11 + ll)[j] == esc[j] by {
            assert(s[11 + j] == w[11 + j]);
            assert(w[11 + j] == esc[j]);
        }
    }
    assert(s[11 + ll] == w[11 + ll] && w[11 + ll] == '"');
    let q1 = 12 + ll;
    assert(s.subrange(q1, s.len() as int) =~= rest) by {
        assert forall|j: int| 0 <= j < rest.len() implies s.subrange(q1, s.len() as int)[j]
            == #[trigger] rest[j] by {
            assert(s[q1 + j] == w[q1 + j]);
            assert(w[q1 + j] == rest[j]);
        }
    }
    assert(!is_ws_char('{'));
    assert(skip_ws(s, 0) == 0);
    let acc0 = PartialRun {
        target: None,
        origin_id: None,
        arguments: None,
        data_kind: None,
        data: None,
    };
    let acc1 = PartialRun { target: Some(v.target), ..acc0 };
    assert(forall|k: int| 0 <= k < "target"@.len() ==> is_plain_char("target"@[k]));
    lemma_run_member_string(s, 1, "target"@, v.target, acc0, acc1);
    lemma_stage_origin(v, s, q1, acc1);
    assert(skip_ws(s, s.len() as int) == s.len());
    if v.origin_id is Some || v.arguments is Some || v.data_kind is Some || v.data is Some {
        assert(s[q1] == ',');
        let accf = PartialRun {
            origin_id: v.origin_id,
            arguments: v.arguments,
            data_kind: v.data_kind,
            data: v.data,
            ..acc1
        };
        assert(parse_run_members(s, 1, acc0) == Ok::<(PartialRun, int), MalformedMessage>(
            (accf, s.len() as int),
        ));
        assert(spec_parse_run(s) == Ok::<RunView, MalformedMessage>(
            RunView {
                target: v.target,
                origin_id: accf.origin_id,
                arguments: accf.arguments,
                data_kind: accf.data_kind,
                data: accf.data,
            },
        ));
        assert((RunView {
            target: v.target,
            origin_id: accf.origin_id,
            arguments: accf.arguments,
            data_kind: accf.data_kind,
            data: accf.data,
        }) =~= v);
    } else {
        assert(s[q1] == '}' && q1 + 1 == s.len());
        assert(parse_run_members(s, 1, acc0) == Ok::<(PartialRun, int), MalformedMessage>(
            (acc1, s.len() as int),
        ));
        assert(spec_parse_run(s) == Ok::<RunView, MalformedMessage>(
            RunView {
                target: v.target,
                origin_id: acc1.origin_id,
                arguments: acc1.arguments,
                data_kind: acc1.data_kind,
                data: acc1.data,
            },
        ));
        assert((RunView {
            target: v.target,
            origin_id: acc1.origin_id,
            arguments: acc1.arguments,
            data_kind: acc1.data_kind,
            data: acc1.data,
        }) =~= v);
    }
}

} // verus!
