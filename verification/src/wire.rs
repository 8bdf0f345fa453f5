//! The wire codec: how the two payloads write and read their records.
//!
//! A record is a brace-delimited member list with lower-camel-case keys.
//! The writer emits no whitespace and omits absent optional fields wholly;
//! the reader allows whitespace between tokens, any member order, and
//! skips members it does not know.

use crate::error::{MalformedMessage, WireField};
use crate::extension::ExtensionData;
use crate::ident::BuildTargetIdentifier;
use crate::run::{full_view, opt_ext_view, BuildTargetRun, RunView};
use crate::run_result::{opt_str_view, BuildTargetRunResult, RunResultView};
use crate::text::{
    chars_to_string, dec_rep, digits_value, digits_value_at, escape_string, is_value_token,
    lemma_parse_string_body_bounds, lemma_scan_digits_range, lemma_scan_value_bounds,
    lemma_skip_ws_bounds, parse_string_at, parse_string_body, push_dec, push_escaped,
    push_str_chars, scan_digits, scan_digits_at, scan_value, scan_value_at, skip_ws, skip_ws_at,
    str_chars, vec_subrange,
};
use vstd::prelude::*;
use vstd::string::*;

verus! {

/// A quoted token holding the field value `s`.
pub open spec fn quoted(s: Seq<char>) -> Seq<char> {
    seq!['"'] + escape_string(s) + seq!['"']
}

/// Turns an optional machine word into its optional mathematical value.
pub open spec fn opt_int(o: Option<usize>) -> Option<int> {
    match o {
        Some(v) => Some(v as int),
        None => None,
    }
}

// ---------------------------------------------------------------------------
// Writing
// ---------------------------------------------------------------------------

/// The wire text of a run result with view `v`: `originId` only when
/// present, `statusCode` always.
pub open spec fn render_result(v: RunResultView) -> Seq<char> {
    seq!['{'] + (match v.origin_id {
        Some(s) => "\"originId\":"@ + quoted(s) + seq![','],
        None => Seq::<char>::empty(),
    }) + "\"statusCode\":"@ + dec_rep(v.status_code as nat) + seq!['}']
}

// ---------------------------------------------------------------------------
// Reading
// ---------------------------------------------------------------------------

/// What separates or ends a member list after a member's value ending at
/// `q`: a comma before another member (`false`) or the closing brace
/// (`true`), at the returned position.
pub open spec fn member_sep(s: Seq<char>, q: int) -> Result<(bool, int), MalformedMessage>
    recommends
        0 <= q <= s.len(),
{
    let a = skip_ws(s, q);
    if a == s.len() {
        Err(MalformedMessage::Syntax)
    } else if s[a] == ',' {
        Ok((false, a + 1))
    } else if s[a] == '}' {
        Ok((true, a + 1))
    } else {
        Err(MalformedMessage::Syntax)
    }
}

pub proof fn lemma_member_sep_bounds(s: Seq<char>, q: int)
    requires
        0 <= q <= s.len(),
    ensures
        member_sep(s, q) matches Ok(p) ==> q < p.1 <= s.len(),
{
    lemma_skip_ws_bounds(s, q);
}

/// Reads the members of a result record from `i` (just inside the opening
/// brace, or just after a comma), carrying the fields already seen, and
/// yields both fields and the position just past the closing brace.
pub open spec fn parse_result_members(
    s: Seq<char>,
    i: int,
    origin: Option<Seq<char>>,
    status: Option<int>,
) -> Result<(Option<Seq<char>>, Option<int>, int), MalformedMessage>
    decreases s.len() - i,
    when 0 <= i <= s.len()
    via parse_result_members_decreases
{
    let j = skip_ws(s, i);
    if j == s.len() {
        Err(MalformedMessage::Syntax)
    } else if s[j] == '}' {
        Ok((origin, status, j + 1))
    } else if s[j] != '"' {
        Err(MalformedMessage::Syntax)
    } else {
        match parse_string_body(s, j + 1) {
            Some((key, k)) => {
                let m = skip_ws(s, k);
                if m == s.len() || s[m] != ':' {
                    Err(MalformedMessage::Syntax)
                } else {
                    let p = skip_ws(s, m + 1);
                    if key == "originId"@ {
                        if p == s.len() || s[p] != '"' {
                            Err(MalformedMessage::InvalidFieldValue(WireField::OriginId))
                        } else {
                            match parse_string_body(s, p + 1) {
                                Some((val, q)) => {
                                    if origin is Some {
                                        Err(MalformedMessage::DuplicateField(WireField::OriginId))
                                    } else {
                                        match member_sep(s, q) {
                                            Ok((true, e)) => Ok((Some(val), status, e)),
                                            Ok((false, j2)) => parse_result_members(
                                                s,
                                                j2,
                                                Some(val),
                                                status,
                                            ),
                                            Err(er) => Err(er),
                                        }
                                    }
                                },
                                None => Err(MalformedMessage::Syntax),
                            }
                        }
                    } else if key == "statusCode"@ {
                        let e = scan_digits(s, p);
                        if e == p || e - p > 20 || digits_value(s, p, e) > usize::MAX {
                            Err(MalformedMessage::InvalidFieldValue(WireField::StatusCode))
                        } else if status is Some {
                            Err(MalformedMessage::DuplicateField(WireField::StatusCode))
                        } else {
                            match member_sep(s, e) {
                                Ok((true, e2)) => Ok((origin, Some(digits_value(s, p, e)), e2)),
                                Ok((false, j2)) => parse_result_members(
                                    s,
                                    j2,
                                    origin,
                                    Some(digits_value(s, p, e)),
                                ),
                                Err(er) => Err(er),
                            }
                        }
                    } else {
                        match scan_value(s, p) {
                            Some(q) => match member_sep(s, q) {
                                Ok((true, e)) => Ok((origin, status, e)),
                                Ok((false, j2)) => parse_result_members(s, j2, origin, status),
                                Err(er) => Err(er),
                            },
                            None => Err(MalformedMessage::Syntax),
                        }
                    }
                }
            },
            None => Err(MalformedMessage::Syntax),
        }
    }
}

#[via_fn]
proof fn parse_result_members_decreases(
    s: Seq<char>,
    i: int,
    origin: Option<Seq<char>>,
    status: Option<int>,
) {
    lemma_skip_ws_bounds(s, i);
    let j = skip_ws(s, i);
    if j < s.len() && s[j] == '"' {
        lemma_parse_string_body_bounds(s, j + 1);
        match parse_string_body(s, j + 1) {
            Some((key, k)) => {
                lemma_skip_ws_bounds(s, k);
                let m = skip_ws(s, k);
                if m < s.len() && s[m] == ':' {
                    lemma_skip_ws_bounds(s, m + 1);
                    let p = skip_ws(s, m + 1);
                    if p < s.len() {
                        lemma_parse_string_body_bounds(s, p + 1);
                        match parse_string_body(s, p + 1) {
                            Some((val, q)) => {
                                lemma_member_sep_bounds(s, q);
                            },
                            None => {},
                        }
                    }
                    lemma_scan_digits_range(s, p);
                    lemma_member_sep_bounds(s, scan_digits(s, p));
                    lemma_scan_value_bounds(s, p);
                    match scan_value(s, p) {
                        Some(q) => {
                            lemma_member_sep_bounds(s, q);
                        },
                        None => {},
                    }
                }
            },
            None => {},
        }
    }
}

/// The record a run result reads from wire text, or why it cannot.
pub open spec fn spec_parse_result(s: Seq<char>) -> Result<RunResultView, MalformedMessage> {
    let i = skip_ws(s, 0);
    if i == s.len() || s[i] != '{' {
        Err(MalformedMessage::Syntax)
    } else {
        match parse_result_members(s, i + 1, None, None) {
            Ok((origin, status, end)) => {
                if skip_ws(s, end) != s.len() {
                    Err(MalformedMessage::Syntax)
                } else {
                    match status {
                        Some(v) => Ok(RunResultView { origin_id: origin, status_code: v as usize }),
                        None => Err(MalformedMessage::MissingRequiredField(WireField::StatusCode)),
                    }
                }
            },
            Err(e) => Err(e),
        }
    }
}

impl BuildTargetRunResult {
    /// Writes the record this result stands for: `{"originId":…,` only when
    /// the token is present, then `"statusCode":…}`.
    pub fn to_wire(&self) -> (r: String)
        ensures
            r@ == render_result(self@),
    {
        let mut out: Vec<char> = Vec::new();
        out.push('{');
        match self.origin_id() {
            Some(s) => {
                push_str_chars(&mut out, "\"originId\":");
                out.push('"');
                push_escaped(&mut out, s.as_str());
                out.push('"');
                out.push(',');
            },
            None => {},
        }
        push_str_chars(&mut out, "\"statusCode\":");
        push_dec(&mut out, self.status_code());
        out.push('}');
        proof {
            assert(out@ =~= render_result(self@));
        }
        chars_to_string(&out)
    }

    /// Reads a result record from wire text. It succeeds exactly on text
    /// the record grammar accepts: one brace-delimited record whose
    /// `statusCode` is a decimal numeral fitting the machine word, whose
    /// `originId` (when present, and not twice) is a quoted token, and
    /// whose unknown members are well-formed; `originId` may be absent,
    /// a missing `statusCode` is refused.
    pub fn from_wire(text: &str) -> (r: Result<BuildTargetRunResult, MalformedMessage>)
        ensures
            r matches Ok(x) ==> spec_parse_result(text@) == Ok::<RunResultView, MalformedMessage>(
                x@,
            ),
            r matches Err(e) ==> spec_parse_result(text@) == Err::<RunResultView, MalformedMessage>(
                e,
            ),
    {
        let s = str_chars(text);
        let n = s.len();
        let i = skip_ws_at(&s, 0);
        if i == n || s[i] != '{' {
            return Err(MalformedMessage::Syntax);
        }
        let mut j = i + 1;
        let mut origin: Option<String> = None;
        let mut status: Option<usize> = None;
        let mut end: usize = 0;
        loop
            invariant_except_break
                s@ == text@,
                n == s@.len(),
                i < n,
                skip_ws(s@, 0) == i as int,
                s@[i as int] == '{',
                i + 1 <= j <= n,
                parse_result_members(s@, i as int + 1, None, None) == parse_result_members(
                    s@,
                    j as int,
                    opt_str_view(origin),
                    opt_int(status),
                ),
            ensures
                s@ == text@,
                n == s@.len(),
                i < n,
                skip_ws(s@, 0) == i as int,
                s@[i as int] == '{',
                end <= n,
                parse_result_members(s@, i as int + 1, None, None) == Ok::<
                    (Option<Seq<char>>, Option<int>, int),
                    MalformedMessage,
                >((opt_str_view(origin), opt_int(status), end as int)),
            decreases n - j,
        {
            let k = skip_ws_at(&s, j);
            if k == n {
                return Err(MalformedMessage::Syntax);
            }
            if s[k] == '}' {
                end = k + 1;
                break ;
            }
            if s[k] != '"' {
                return Err(MalformedMessage::Syntax);
            }
            let (key, k2) = match parse_string_at(&s, k + 1) {
                Some(pr) => pr,
                None => {
                    return Err(MalformedMessage::Syntax);
                },
            };
            let m = skip_ws_at(&s, k2);
            if m == n || s[m] != ':' {
                return Err(MalformedMessage::Syntax);
            }
            let p = skip_ws_at(&s, m + 1);
            let keystr = chars_to_string(&key);
            // `q` will be the position just past this member's value.
            let q: usize;
            if keystr == String::from_str("originId") {
                if p == n || s[p] != '"' {
                    return Err(MalformedMessage::InvalidFieldValue(WireField::OriginId));
                }
                let (val, q2) = match parse_string_at(&s, p + 1) {
                    Some(pr) => pr,
                    None => {
                        return Err(MalformedMessage::Syntax);
                    },
                };
                if origin.is_some() {
                    return Err(MalformedMessage::DuplicateField(WireField::OriginId));
                }
                origin = Some(chars_to_string(&val));
                q = q2;
            } else if keystr == String::from_str("statusCode") {
                let e = scan_digits_at(&s, p);
                if e == p || e - p > 20 {
                    return Err(MalformedMessage::InvalidFieldValue(WireField::StatusCode));
                }
                proof {
                    lemma_scan_digits_range(s@, p as int);
                }
                let v = match digits_value_at(&s, p, e) {
                    Some(v) => v,
                    None => {
                        return Err(MalformedMessage::InvalidFieldValue(WireField::StatusCode));
                    },
                };
                if status.is_some() {
                    return Err(MalformedMessage::DuplicateField(WireField::StatusCode));
                }
                status = Some(v);
                q = e;
            } else {
                q = match scan_value_at(&s, p) {
                    Some(q2) => q2,
                    None => {
                        return Err(MalformedMessage::Syntax);
                    },
                };
            }
            let a = skip_ws_at(&s, q);
            if a == n {
                return Err(MalformedMessage::Syntax);
            }
            if s[a] == ',' {
                j = a + 1;
            } else if s[a] == '}' {
                end = a + 1;
                break ;
            } else {
                return Err(MalformedMessage::Syntax);
            }
        }
        let t = skip_ws_at(&s, end);
        if t != n {
            return Err(MalformedMessage::Syntax);
        }
        match status {
            Some(v) => Ok(BuildTargetRunResult::new(origin, v)),
            None => Err(MalformedMessage::MissingRequiredField(WireField::StatusCode)),
        }
    }
}

} // verus!

verus! {

// ---------------------------------------------------------------------------
// The run request's record
// ---------------------------------------------------------------------------

/// The wire text of a run request with view `v`: `target` always and first,
/// then each optional member only when present, in a fixed order.
pub open spec fn render_run(v: RunView) -> Seq<char> {
    seq!['{'] + "\"target\":"@ + quoted(v.target) + (match v.origin_id {
        Some(s) => seq![','] + "\"originId\":"@ + quoted(s),
        None => Seq::<char>::empty(),
    }) + (match v.arguments {
        Some(s) => seq![','] + "\"arguments\":"@ + quoted(s),
        None => Seq::<char>::empty(),
    }) + (match v.data_kind {
        Some(s) => seq![','] + "\"dataKind\":"@ + quoted(s),
        None => Seq::<char>::empty(),
    }) + (match v.data {
        Some(t) => seq![','] + "\"data\":"@ + t,
        None => Seq::<char>::empty(),
    }) + seq!['}']
}

/// The fields of a run request's record gathered so far while reading.
#[verifier::ext_equal]
pub struct PartialRun {
    pub target: Option<Seq<char>>,
    pub origin_id: Option<Seq<char>>,
    pub arguments: Option<Seq<char>>,
    pub data_kind: Option<Seq<char>>,
    pub data: Option<Seq<char>>,
}

/// Reads the members of a run request's record from `i` (just inside the
/// opening brace, or just after a comma), carrying the fields already seen,
/// and yields the fields and the position just past the closing brace.
pub open spec fn parse_run_members(s: Seq<char>, i: int, acc: PartialRun) -> Result<
    (PartialRun, int),
    MalformedMessage,
>
    decreases s.len() - i,
    when 0 <= i <= s.len()
    via parse_run_members_decreases
{
    let j = skip_ws(s, i);
    if j == s.len() {
        Err(MalformedMessage::Syntax)
    } else if s[j] == '}' {
        Ok((acc, j + 1))
    } else if s[j] != '"' {
        Err(MalformedMessage::Syntax)
    } else {
        match parse_string_body(s, j + 1) {
            Some((key, k)) => {
                let m = skip_ws(s, k);
                if m == s.len() || s[m] != ':' {
                    Err(MalformedMessage::Syntax)
                } else {
                    let p = skip_ws(s, m + 1);
                    if key == "target"@ {
                        if p == s.len() || s[p] != '"' {
                            Err(MalformedMessage::InvalidFieldValue(WireField::Target))
                        } else {
                            match parse_string_body(s, p + 1) {
                                Some((val, q)) => {
                                    if acc.target is Some {
                                        Err(MalformedMessage::DuplicateField(WireField::Target))
                                    } else {
                                        match member_sep(s, q) {
                                            Ok((true, e)) => Ok(
                                                (PartialRun { target: Some(val), ..acc }, e),
                                            ),
                                            Ok((false, j2)) => parse_run_members(
                                                s,
                                                j2,
                                                PartialRun { target: Some(val), ..acc },
                                            ),
                                            Err(er) => Err(er),
                                        }
                                    }
                                },
                                None => Err(MalformedMessage::Syntax),
                            }
                        }
                    } else if key == "originId"@ {
                        if p == s.len() || s[p] != '"' {
                            Err(MalformedMessage::InvalidFieldValue(WireField::OriginId))
                        } else {
                            match parse_string_body(s, p + 1) {
                                Some((val, q)) => {
                                    if acc.origin_id is Some {
                                        Err(MalformedMessage::DuplicateField(WireField::OriginId))
                                    } else {
                                        match member_sep(s, q) {
                                            Ok((true, e)) => Ok(
                                                (PartialRun { origin_id: Some(val), ..acc }, e),
                                            ),
                                            Ok((false, j2)) => parse_run_members(
                                                s,
                                                j2,
                                                PartialRun { origin_id: Some(val), ..acc },
                                            ),
                                            Err(er) => Err(er),
                                        }
                                    }
                                },
                                None => Err(MalformedMessage::Syntax),
                            }
                        }
                    } else if key == "arguments"@ {
                        if p == s.len() || s[p] != '"' {
                            Err(MalformedMessage::InvalidFieldValue(WireField::Arguments))
                        } else {
                            match parse_string_body(s, p + 1) {
                                Some((val, q)) => {
                                    if acc.arguments is Some {
                                        Err(MalformedMessage::DuplicateField(WireField::Arguments))
                                    } else {
                                        match member_sep(s, q) {
                                            Ok((true, e)) => Ok(
                                                (PartialRun { arguments: Some(val), ..acc }, e),
                                            ),
                                            Ok((false, j2)) => parse_run_members(
                                                s,
                                                j2,
                                                PartialRun { arguments: Some(val), ..acc },
                                            ),
                                            Err(er) => Err(er),
                                        }
                                    }
                                },
                                None => Err(MalformedMessage::Syntax),
                            }
                        }
                    } else if key == "dataKind"@ {
                        if p == s.len() || s[p] != '"' {
                            Err(MalformedMessage::InvalidFieldValue(WireField::DataKind))
                        } else {
                            match parse_string_body(s, p + 1) {
                                Some((val, q)) => {
                                    if acc.data_kind is Some {
                                        Err(MalformedMessage::DuplicateField(WireField::DataKind))
                                    } else {
                                        match member_sep(s, q) {
                                            Ok((true, e)) => Ok(
                                                (PartialRun { data_kind: Some(val), ..acc }, e),
                                            ),
                                            Ok((false, j2)) => parse_run_members(
                                                s,
                                                j2,
                                                PartialRun { data_kind: Some(val), ..acc },
                                            ),
                                            Err(er) => Err(er),
                                        }
                                    }
                                },
                                None => Err(MalformedMessage::Syntax),
                            }
                        }
                    } else if key == "data"@ {
                        match scan_value(s, p) {
                            Some(q) => {
                                if acc.data is Some {
                                    Err(MalformedMessage::DuplicateField(WireField::Data))
                                } else if !is_value_token(s.subrange(p, q)) {
                                    Err(MalformedMessage::InvalidFieldValue(WireField::Data))
                                } else {
                                    match member_sep(s, q) {
                                        Ok((true, e)) => Ok(
                                            (PartialRun { data: Some(s.subrange(p, q)), ..acc }, e),
                                        ),
                                        Ok((false, j2)) => parse_run_members(
                                            s,
                                            j2,
                                            PartialRun { data: Some(s.subrange(p, q)), ..acc },
                                        ),
                                        Err(er) => Err(er),
                                    }
                                }
                            },
                            None => Err(MalformedMessage::Syntax),
                        }
                    } else {
                        match scan_value(s, p) {
                            Some(q) => match member_sep(s, q) {
                                Ok((true, e)) => Ok((acc, e)),
                                Ok((false, j2)) => parse_run_members(s, j2, acc),
                                Err(er) => Err(er),
                            },
                            None => Err(MalformedMessage::Syntax),
                        }
                    }
                }
            },
            None => Err(MalformedMessage::Syntax),
        }
    }
}

#[via_fn]
proof fn parse_run_members_decreases(s: Seq<char>, i: int, acc: PartialRun) {
    lemma_skip_ws_bounds(s, i);
    let j = skip_ws(s, i);
    if j < s.len() && s[j] == '"' {
        lemma_parse_string_body_bounds(s, j + 1);
        match parse_string_body(s, j + 1) {
            Some((key, k)) => {
                lemma_skip_ws_bounds(s, k);
                let m = skip_ws(s, k);
                if m < s.len() && s[m] == ':' {
                    lemma_skip_ws_bounds(s, m + 1);
                    let p = skip_ws(s, m + 1);
                    if p < s.len() {
                        lemma_parse_string_body_bounds(s, p + 1);
                        match parse_string_body(s, p + 1) {
                            Some((val, q)) => {
                                lemma_member_sep_bounds(s, q);
                            },
                            None => {},
                        }
                    }
                    lemma_scan_value_bounds(s, p);
                    match scan_value(s, p) {
                        Some(q) => {
                            lemma_member_sep_bounds(s, q);
                        },
                        None => {},
                    }
                }
            },
            None => {},
        }
    }
}

/// The record a run request reads from wire text, or why it cannot.
pub open spec fn spec_parse_run(s: Seq<char>) -> Result<RunView, MalformedMessage> {
    let i = skip_ws(s, 0);
    if i == s.len() || s[i] != '{' {
        Err(MalformedMessage::Syntax)
    } else {
        match parse_run_members(
            s,
            i + 1,
            PartialRun { target: None, origin_id: None, arguments: None, data_kind: None, data: None },
        ) {
            Ok((acc, end)) => {
                if skip_ws(s, end) != s.len() {
                    Err(MalformedMessage::Syntax)
                } else {
                    match acc.target {
                        Some(t) => Ok(
                            RunView {
                                target: t,
                                origin_id: acc.origin_id,
                                arguments: acc.arguments,
                                data_kind: acc.data_kind,
                                data: acc.data,
                            },
                        ),
                        None => Err(MalformedMessage::MissingRequiredField(WireField::Target)),
                    }
                }
            },
            Err(e) => Err(e),
        }
    }
}

} // verus!

verus! {

impl BuildTargetRun {
    /// Writes the record this request stands for: `target` first, each
    /// optional member only when present.
    #[verifier::rlimit(50)]
    pub fn to_wire(&self) -> (r: String)
        ensures
            r@ == render_run(self@),
    {
        let mut out: Vec<char> = Vec::new();
        out.push('{');
        push_str_chars(&mut out, "\"target\":");
        out.push('"');
        push_escaped(&mut out, self.target().uri().as_str());
        out.push('"');
        let ghost base = seq!['{'] + "\"target\":"@ + quoted(self@.target);
        let ghost with_origin = base + (match self@.origin_id {
            Some(s) => seq![','] + "\"originId\":"@ + quoted(s),
            None => Seq::<char>::empty(),
        });
        let ghost with_args = with_origin + (match self@.arguments {
            Some(s) => seq![','] + "\"arguments\":"@ + quoted(s),
            None => Seq::<char>::empty(),
        });
        let ghost with_kind = with_args + (match self@.data_kind {
            Some(s) => seq![','] + "\"dataKind\":"@ + quoted(s),
            None => Seq::<char>::empty(),
        });
        let ghost with_data = with_kind + (match self@.data {
            Some(d) => seq![','] + "\"data\":"@ + d,
            None => Seq::<char>::empty(),
        });
        proof {
            assert(out@ =~= base);
        }
        match self.origin_id() {
            Some(s) => {
                out.push(',');
                push_str_chars(&mut out, "\"originId\":");
                out.push('"');
                push_escaped(&mut out, s.as_str());
                out.push('"');
            },
            None => {},
        }
        proof {
            assert(out@ =~= with_origin);
        }
        match self.arguments() {
            Some(s) => {
                out.push(',');
                push_str_chars(&mut out, "\"arguments\":");
                out.push('"');
                push_escaped(&mut out, s.as_str());
                out.push('"');
            },
            None => {},
        }
        proof {
            assert(out@ =~= with_args);
        }
        match self.data_kind() {
            Some(s) => {
                out.push(',');
                push_str_chars(&mut out, "\"dataKind\":");
                out.push('"');
                push_escaped(&mut out, s.as_str());
                out.push('"');
            },
            None => {},
        }
        proof {
            assert(out@ =~= with_kind);
        }
        match self.data() {
            Some(d) => {
                out.push(',');
                push_str_chars(&mut out, "\"data\":");
                push_str_chars(&mut out, d.text().as_str());
            },
            None => {},
        }
        proof {
            assert(out@ =~= with_data);
        }
        out.push('}');
        proof {
            assert(out@ =~= render_run(self@));
        }
        chars_to_string(&out)
    }
}

} // verus!

verus! {

impl BuildTargetRun {
    /// Reads a run request's record from wire text. It succeeds exactly on
    /// text the record grammar accepts: one brace-delimited record whose
    /// `target`, `originId`, `arguments` and `dataKind` (each at most once,
    /// only `target` required) are quoted tokens, whose `data` is any single
    /// well-framed value token, and whose unknown members are well-formed.
    pub fn from_wire(text: &str) -> (r: Result<BuildTargetRun, MalformedMessage>)
        ensures
            r matches Ok(x) ==> spec_parse_run(text@) == Ok::<RunView, MalformedMessage>(x@),
            r matches Err(e) ==> spec_parse_run(text@) == Err::<RunView, MalformedMessage>(e),
    {
        let s = str_chars(text);
        let n = s.len();
        let i = skip_ws_at(&s, 0);
        if i == n || s[i] != '{' {
            return Err(MalformedMessage::Syntax);
        }
        let mut j = i + 1;
        let mut target: Option<String> = None;
        let mut origin: Option<String> = None;
        let mut args: Option<String> = None;
        let mut kind: Option<String> = None;
        let mut data: Option<ExtensionData> = None;
        let mut end: usize = 0;
        let ghost nothing = PartialRun {
            target: None,
            origin_id: None,
            arguments: None,
            data_kind: None,
            data: None,
        };
        loop
            invariant_except_break
                s@ == text@,
                n == s@.len(),
                i < n,
                skip_ws(s@, 0) == i as int,
                s@[i as int] == '{',
                i + 1 <= j <= n,
                parse_run_members(s@, i as int + 1, nothing) == parse_run_members(
                    s@,
                    j as int,
                    PartialRun {
                        target: opt_str_view(target),
                        origin_id: opt_str_view(origin),
                        arguments: opt_str_view(args),
                        data_kind: opt_str_view(kind),
                        data: opt_ext_view(data),
                    },
                ),
                nothing == (PartialRun {
                    target: None,
                    origin_id: None,
                    arguments: None,
                    data_kind: None,
                    data: None,
                }),
            ensures
                s@ == text@,
                n == s@.len(),
                i < n,
                skip_ws(s@, 0) == i as int,
                s@[i as int] == '{',
                end <= n,
                parse_run_members(s@, i as int + 1, nothing) == Ok::<
                    (PartialRun, int),
                    MalformedMessage,
                >(
                    (
                        PartialRun {
                            target: opt_str_view(target),
                            origin_id: opt_str_view(origin),
                            arguments: opt_str_view(args),
                            data_kind: opt_str_view(kind),
                            data: opt_ext_view(data),
                        },
                        end as int,
                    ),
                ),
                nothing == (PartialRun {
                    target: None,
                    origin_id: None,
                    arguments: None,
                    data_kind: None,
                    data: None,
                }),
            decreases n - j,
        {
            let k = skip_ws_at(&s, j);
            if k == n {
                return Err(MalformedMessage::Syntax);
            }
            if s[k] == '}' {
                end = k + 1;
                break ;
            }
            if s[k] != '"' {
                return Err(MalformedMessage::Syntax);
            }
            let (key, k2) = match parse_string_at(&s, k + 1) {
                Some(pr) => pr,
                None => {
                    return Err(MalformedMessage::Syntax);
                },
            };
            let m = skip_ws_at(&s, k2);
            if m == n || s[m] != ':' {
                return Err(MalformedMessage::Syntax);
            }
            let p = skip_ws_at(&s, m + 1);
            let keystr = chars_to_string(&key);
            // `q` will be the position just past this member's value.
            let q: usize;
            if keystr == String::from_str("target") {
                if p == n || s[p] != '"' {
                    return Err(MalformedMessage::InvalidFieldValue(WireField::Target));
                }
                let (val, q2) = match parse_string_at(&s, p + 1) {
                    Some(pr) => pr,
                    None => {
                        return Err(MalformedMessage::Syntax);
                    },
                };
                if target.is_some() {
                    return Err(MalformedMessage::DuplicateField(WireField::Target));
                }
                target = Some(chars_to_string(&val));
                q = q2;
            } else if keystr == String::from_str("originId") {
                if p == n || s[p] != '"' {
                    return Err(MalformedMessage::InvalidFieldValue(WireField::OriginId));
                }
                let (val, q2) = match parse_string_at(&s, p + 1) {
                    Some(pr) => pr,
                    None => {
                        return Err(MalformedMessage::Syntax);
                    },
                };
                if origin.is_some() {
                    return Err(MalformedMessage::DuplicateField(WireField::OriginId));
                }
                origin = Some(chars_to_string(&val));
                q = q2;
            } else if keystr == String::from_str("arguments") {
                if p == n || s[p] != '"' {
                    return Err(MalformedMessage::InvalidFieldValue(WireField::Arguments));
                }
                let (val, q2) = match parse_string_at(&s, p + 1) {
                    Some(pr) => pr,
                    None => {
                        return Err(MalformedMessage::Syntax);
                    },
                };
                if args.is_some() {
                    return Err(MalformedMessage::DuplicateField(WireField::Arguments));
                }
                args = Some(chars_to_string(&val));
                q = q2;
            } else if keystr == String::from_str("dataKind") {
                if p == n || s[p] != '"' {
                    return Err(MalformedMessage::InvalidFieldValue(WireField::DataKind));
                }
                let (val, q2) = match parse_string_at(&s, p + 1) {
                    Some(pr) => pr,
                    None => {
                        return Err(MalformedMessage::Syntax);
                    },
                };
                if kind.is_some() {
                    return Err(MalformedMessage::DuplicateField(WireField::DataKind));
                }
                kind = Some(chars_to_string(&val));
                q = q2;
            } else if keystr == String::from_str("data") {
                let q2 = match scan_value_at(&s, p) {
                    Some(q2) => q2,
                    None => {
                        return Err(MalformedMessage::Syntax);
                    },
                };
                if data.is_some() {
                    return Err(MalformedMessage::DuplicateField(WireField::Data));
                }
                let sub = vec_subrange(&s, p, q2);
                let d = match ExtensionData::new(chars_to_string(&sub)) {
                    Ok(d) => d,
                    Err(_) => {
                        return Err(MalformedMessage::InvalidFieldValue(WireField::Data));
                    },
                };
                data = Some(d);
                q = q2;
            } else {
                q = match scan_value_at(&s, p) {
                    Some(q2) => q2,
                    None => {
                        return Err(MalformedMessage::Syntax);
                    },
                };
            }
            let a = skip_ws_at(&s, q);
            if a == n {
                return Err(MalformedMessage::Syntax);
            }
            if s[a] == ',' {
                j = a + 1;
            } else if s[a] == '}' {
                end = a + 1;
                break ;
            } else {
                return Err(MalformedMessage::Syntax);
            }
        }
        let t = skip_ws_at(&s, end);
        if t != n {
            return Err(MalformedMessage::Syntax);
        }
        let tgt = match target {
            Some(t) => t,
            None => {
                return Err(MalformedMessage::MissingRequiredField(WireField::Target));
            },
        };
        let out = BuildTargetRun::new(BuildTargetIdentifier::new(tgt), origin, args, kind, data);
        proof {
            assert(spec_parse_run(text@) matches Ok(v) && v =~= out@);
        }
        Ok(out)
    }
}

} // verus!
