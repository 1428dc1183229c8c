//! The replacement-template compiler.
//!
//! A template is a byte string with optional markers.  `$(N)` inserts
//! capture group `N` verbatim; `$(N<MOD>)` and `$(NMOD)` insert it
//! after applying the registered modifier `MOD` (one or more uppercase
//! letters).  A marker preceded by one extra `$` is escaped: the extra
//! `$` is consumed and the marker text itself becomes literal text.
//! Everything else is literal.  A `$(` not followed by a well-formed
//! marker tail is no marker and stays literal.  Compilation is pure;
//! an unknown modifier, a marker without a group number (`$()`,
//! `$(U)`), or a group number too big for the machine fails it before
//! any text is touched.

use vstd::prelude::*;
use vstd::slice::slice_index_get;
use vstd::slice::slice_subrange;
use vstd::slice::slice_to_vec;
use crate::errors::ConfigError;
use crate::modifiers::Modifier;
use crate::modifiers::get_modifier;
use crate::modifiers::modifier_spec;

verus! {

/// A back-reference to a capture group, with an optional transform
/// bound at compile time.
#[derive(Debug)]
pub struct GroupRef {
    pub id: usize,
    pub transform: Option<Modifier>,
}

/// One compiled piece of a replacement template.
#[derive(Debug)]
pub enum ReplacePart {
    /// Literal bytes, inserted verbatim.
    Str(Vec<u8>),
    /// The text of a capture group, optionally transformed.
    Match(GroupRef),
}

/// The mathematical form of a compiled template piece.
pub enum PartV {
    Str(Seq<u8>),
    Match(nat, Option<Modifier>),
}

impl View for ReplacePart {
    type V = PartV;

    open spec fn view(&self) -> PartV {
        match self {
            ReplacePart::Str(v) => PartV::Str(v@),
            ReplacePart::Match(g) => PartV::Match(g.id as nat, g.transform),
        }
    }
}

/// The mathematical form of a whole plan.
pub open spec fn plan_view(plan: Seq<ReplacePart>) -> Seq<PartV> {
    Seq::new(plan.len(), |i: int| plan[i]@)
}

/// Why a template fails to compile.
pub enum TmplErr {
    /// A live marker names a modifier that is not registered.
    UnknownModifier(Seq<u8>),
    /// A live marker's group number does not fit the machine's word
    /// size.
    GroupTooBig,
    /// An unescaped marker has no group number at all: its digit run
    /// is empty, so it names no capture group.
    EmptyGroupNumber,
}

pub open spec fn is_digit(b: u8) -> bool {
    48 <= b <= 57
}

pub open spec fn is_upper(b: u8) -> bool {
    65 <= b <= 90
}

/// End of the run of digits starting at `j`.
pub open spec fn digit_run_end(t: Seq<u8>, j: int) -> int
    decreases t.len() - j,
    when 0 <= j <= t.len()
{
    if j < t.len() && is_digit(t[j]) {
        digit_run_end(t, j + 1)
    } else {
        j
    }
}

/// End of the run of uppercase letters starting at `j`.
pub open spec fn upper_run_end(t: Seq<u8>, j: int) -> int
    decreases t.len() - j,
    when 0 <= j <= t.len()
{
    if j < t.len() && is_upper(t[j]) {
        upper_run_end(t, j + 1)
    } else {
        j
    }
}

pub proof fn lemma_digit_run_end(t: Seq<u8>, j: int)
    requires
        0 <= j <= t.len(),
    ensures
        j <= digit_run_end(t, j) <= t.len(),
        forall|k: int| j <= k < digit_run_end(t, j) ==> is_digit(#[trigger] t[k]),
    decreases t.len() - j,
{
    if j < t.len() && is_digit(t[j]) {
        lemma_digit_run_end(t, j + 1);
    }
}

pub proof fn lemma_upper_run_end(t: Seq<u8>, j: int)
    requires
        0 <= j <= t.len(),
    ensures
        j <= upper_run_end(t, j) <= t.len(),
        forall|k: int| j <= k < upper_run_end(t, j) ==> is_upper(#[trigger] t[k]),
    decreases t.len() - j,
{
    if j < t.len() && is_upper(t[j]) {
        lemma_upper_run_end(t, j + 1);
    }
}

/// The tail of a marker after its digits: an optional modifier name,
/// then the closing parenthesis.  Yields the modifier name's range and
/// the index one past the closing parenthesis.
pub open spec fn marker_tail(t: Seq<u8>, j: int) -> Option<(Option<(int, int)>, int)> {
    if 0 <= j <= t.len() {
        if j < t.len() && t[j] == 60 {
            let m1 = upper_run_end(t, j + 1);
            if m1 > j + 1 && m1 + 2 <= t.len() && t[m1] == 62 && t[m1 + 1] == 41 {
                Some((Some((j + 1, m1)), m1 + 2))
            } else {
                None
            }
        } else {
            let m1 = upper_run_end(t, j);
            if m1 == j {
                if j < t.len() && t[j] == 41 {
                    Some((None, j + 1))
                } else {
                    None
                }
            } else {
                if m1 < t.len() && t[m1] == 41 {
                    Some((Some((j, m1)), m1 + 1))
                } else {
                    None
                }
            }
        }
    } else {
        None
    }
}

/// Whether something marker-shaped starts at `i`: `$(`, a run of
/// digits — possibly empty — and a well-formed tail.  This is the
/// shape that escaping recognises; a live marker additionally needs
/// its group number.
pub open spec fn marker_shape_at(t: Seq<u8>, i: int) -> bool {
    if 0 <= i && i + 2 <= t.len() && t[i] == 36 && t[i + 1] == 40 {
        marker_tail(t, digit_run_end(t, i + 2)) is Some
    } else {
        false
    }
}

/// Whether a live marker starts at `i`: marker-shaped with at least
/// one digit.
pub open spec fn marker_at(t: Seq<u8>, i: int) -> bool {
    marker_shape_at(t, i) && digit_run_end(t, i + 2) > i + 2
}

/// Index one past a marker's closing parenthesis.
pub open spec fn marker_end(t: Seq<u8>, i: int) -> int {
    match marker_tail(t, digit_run_end(t, i + 2)) {
        Some(tl) => tl.1,
        None => 0,
    }
}

/// The marker's modifier name, if one is written.
pub open spec fn marker_mod(t: Seq<u8>, i: int) -> Option<Seq<u8>> {
    match marker_tail(t, digit_run_end(t, i + 2)) {
        Some((Some((a, b)), _)) => Some(t.subrange(a, b)),
        _ => None,
    }
}

/// Value of the digit string `t[j..k)`.
pub open spec fn digits_val(t: Seq<u8>, j: int, k: int) -> nat
    decreases k - j,
    when j <= k
{
    if j >= k {
        0
    } else {
        (digits_val(t, j, k - 1) * 10 + (t[k - 1] - 48)) as nat
    }
}

/// The marker's capture-group number.
pub open spec fn marker_group(t: Seq<u8>, i: int) -> nat {
    digits_val(t, i + 2, digit_run_end(t, i + 2))
}

pub proof fn lemma_marker_end(t: Seq<u8>, i: int)
    requires
        marker_shape_at(t, i),
    ensures
        i + 3 <= marker_end(t, i) <= t.len(),
{
    lemma_digit_run_end(t, i + 2);
    let d1 = digit_run_end(t, i + 2);
    if d1 < t.len() && t[d1] == 60 {
        lemma_upper_run_end(t, d1 + 1);
    } else {
        lemma_upper_run_end(t, d1);
    }
}

/// Prepend literal bytes to a plan, merging with a literal head so
/// that maximal literal runs stay single fragments.
pub open spec fn cons_lit(bs: Seq<u8>, rest: Seq<PartV>) -> Seq<PartV> {
    if bs.len() == 0 {
        rest
    } else if rest.len() > 0 {
        match rest[0] {
            PartV::Str(s) => seq![PartV::Str(bs + s)] + rest.drop_first(),
            PartV::Match(_, _) => seq![PartV::Str(bs)] + rest,
        }
    } else {
        seq![PartV::Str(bs)]
    }
}

pub proof fn lemma_cons_lit_concat(a: Seq<u8>, b: Seq<u8>, p: Seq<PartV>)
    ensures
        cons_lit(a, cons_lit(b, p)) == cons_lit(a + b, p),
{
    if b.len() == 0 {
        assert(a + b =~= a);
    } else if a.len() == 0 {
        assert(a + b =~= b);
    } else {
        if p.len() > 0 {
            match p[0] {
                PartV::Str(s) => {
                    assert((seq![PartV::Str(b + s)] + p.drop_first())[0] == PartV::Str(b + s));
                    assert((seq![PartV::Str(b + s)] + p.drop_first()).drop_first() =~= p.drop_first());
                    assert(a + (b + s) =~= (a + b) + s);
                    assert(seq![PartV::Str(a + (b + s))] + p.drop_first() =~= seq![
                        PartV::Str((a + b) + s),
                    ] + p.drop_first());
                },
                PartV::Match(_, _) => {
                    assert((seq![PartV::Str(b)] + p)[0] == PartV::Str(b));
                    assert((seq![PartV::Str(b)] + p).drop_first() =~= p);
                    assert(cons_lit(a, cons_lit(b, p)) =~= seq![PartV::Str(a + b)] + p);
                },
            }
        } else {
            assert((seq![PartV::Str(b)]).drop_first() =~= Seq::<PartV>::empty());
            assert(cons_lit(a, cons_lit(b, p)) =~= seq![PartV::Str(a + b)]);
        }
    }
}

/// What a template compiles to: the plan, or the first fault.
///
/// Scanning from `i`: an escaped marker (`$` immediately before
/// something marker-shaped) turns into that marker's own text,
/// literally; a live marker becomes a capture back-reference after
/// its modifier name and group number are checked; an unescaped
/// marker shape without a group number is a fault; any other byte is
/// literal.
pub open spec fn tmpl_spec(t: Seq<u8>, i: int) -> Result<Seq<PartV>, TmplErr>
    decreases t.len() - i,
    when 0 <= i <= t.len()
    via tmpl_spec_dec
{
    if i >= t.len() {
        Ok(Seq::empty())
    } else if t[i] == 36 && marker_shape_at(t, i + 1) {
        match tmpl_spec(t, marker_end(t, i + 1)) {
            Ok(rest) => Ok(cons_lit(t.subrange(i + 1, marker_end(t, i + 1)), rest)),
            Err(e) => Err(e),
        }
    } else if marker_at(t, i) {
        match marker_mod(t, i) {
            Some(name) => match modifier_spec(name) {
                None => Err(TmplErr::UnknownModifier(name)),
                Some(m) => if marker_group(t, i) > usize::MAX as nat {
                    Err(TmplErr::GroupTooBig)
                } else {
                    match tmpl_spec(t, marker_end(t, i)) {
                        Ok(rest) => Ok(seq![PartV::Match(marker_group(t, i), Some(m))] + rest),
                        Err(e) => Err(e),
                    }
                },
            },
            None => if marker_group(t, i) > usize::MAX as nat {
                Err(TmplErr::GroupTooBig)
            } else {
                match tmpl_spec(t, marker_end(t, i)) {
                    Ok(rest) => Ok(seq![PartV::Match(marker_group(t, i), None)] + rest),
                    Err(e) => Err(e),
                }
            },
        }
    } else if marker_shape_at(t, i) {
        Err(TmplErr::EmptyGroupNumber)
    } else {
        match tmpl_spec(t, i + 1) {
            Ok(rest) => Ok(cons_lit(seq![t[i]], rest)),
            Err(e) => Err(e),
        }
    }
}

#[via_fn]
proof fn tmpl_spec_dec(t: Seq<u8>, i: int) {
    if 0 <= i && i < t.len() {
        if t[i] == 36 && marker_shape_at(t, i + 1) {
            lemma_marker_end(t, i + 1);
        } else if marker_at(t, i) {
            lemma_marker_end(t, i);
        }
    }
}

proof fn lemma_digits_val_mono(t: Seq<u8>, j: int, k1: int, k2: int)
    requires
        j <= k1 <= k2,
        forall|x: int| j <= x < k2 ==> is_digit(#[trigger] t[x]),
    ensures
        digits_val(t, j, k1) <= digits_val(t, j, k2),
    decreases k2 - k1,
{
    if k1 < k2 {
        lemma_digits_val_mono(t, j, k1, k2 - 1);
        assert(digits_val(t, j, k2) == (digits_val(t, j, k2 - 1) * 10 + (t[k2 - 1] - 48)) as nat);
    }
}

fn digit_run_end_exec(t: &[u8], j0: usize) -> (j: usize)
    requires
        j0 <= t@.len(),
    ensures
        j == digit_run_end(t@, j0 as int),
        j0 <= j <= t@.len(),
    decreases t@.len() - j0,
{
    if j0 < t.len() {
        let b = *slice_index_get(t, j0);
        if 48 <= b && b <= 57 {
            return digit_run_end_exec(t, j0 + 1);
        }
    }
    j0
}

fn upper_run_end_exec(t: &[u8], j0: usize) -> (j: usize)
    requires
        j0 <= t@.len(),
    ensures
        j == upper_run_end(t@, j0 as int),
        j0 <= j <= t@.len(),
    decreases t@.len() - j0,
{
    if j0 < t.len() {
        let b = *slice_index_get(t, j0);
        if 65 <= b && b <= 90 {
            return upper_run_end_exec(t, j0 + 1);
        }
    }
    j0
}

/// Parse the digit string `t[j..k)` as a machine word; `None` means it
/// does not fit.
fn digits_to_usize(t: &[u8], j: usize, k: usize) -> (r: Option<usize>)
    requires
        j <= k <= t@.len(),
        forall|x: int| j <= x < k ==> is_digit(#[trigger] t@[x]),
    ensures
        match r {
            Some(v) => v as nat == digits_val(t@, j as int, k as int) && digits_val(
                t@,
                j as int,
                k as int,
            ) <= usize::MAX as nat,
            None => digits_val(t@, j as int, k as int) > usize::MAX as nat,
        },
{
    let mut acc: usize = 0;
    let mut idx: usize = j;
    while idx < k
        invariant
            j <= idx <= k <= t@.len(),
            forall|x: int| j <= x < k ==> is_digit(#[trigger] t@[x]),
            acc as nat == digits_val(t@, j as int, idx as int),
        decreases k - idx,
    {
        let d = *slice_index_get(t, idx) - 48;
        let step_ok: Option<usize> = match acc.checked_mul(10) {
            Some(x) => x.checked_add(d as usize),
            None => None,
        };
        proof {
            assert(digits_val(t@, j as int, idx + 1) == (digits_val(t@, j as int, idx as int) * 10
                + (t@[idx as int] - 48)) as nat);
        }
        match step_ok {
            Some(y) => {
                acc = y;
            },
            None => {
                proof {
                    lemma_digits_val_mono(t@, j as int, idx + 1, k as int);
                }
                return None;
            },
        }
        idx = idx + 1;
    }
    Some(acc)
}

/// The shape of a marker found in a template: where its digits end,
/// where its modifier name sits, and where the marker ends.
struct MarkerShape {
    d1: usize,
    m0: usize,
    m1: usize,
    end: usize,
    has_mod: bool,
}

/// Recognise a marker starting at `i`.
fn scan_marker(t: &[u8], i: usize) -> (r: Option<MarkerShape>)
    requires
        i <= t@.len(),
    ensures
        match r {
            None => !marker_shape_at(t@, i as int),
            Some(ms) => marker_shape_at(t@, i as int) && ms.d1 == digit_run_end(t@, i + 2) && i
                + 2 <= ms.d1 <= t@.len() && (marker_at(t@, i as int) <==> i + 2 < ms.d1)
                && ms.end == marker_end(t@, i as int) && i + 3 <= ms.end <= t@.len() && (
            ms.has_mod <==> marker_mod(t@, i as int) is Some) && (ms.has_mod ==> ms.m0 <= ms.m1
                <= t@.len() && marker_mod(t@, i as int) == Some(
                t@.subrange(ms.m0 as int, ms.m1 as int),
            )),
        },
{
    if i >= t.len() {
        return None;
    }
    if i + 1 >= t.len() {
        return None;
    }
    if *slice_index_get(t, i) != 36 {
        return None;
    }
    if *slice_index_get(t, i + 1) != 40 {
        return None;
    }
    let d1 = digit_run_end_exec(t, i + 2);
    if d1 >= t.len() {
        return None;
    }
    let b = *slice_index_get(t, d1);
    if b == 60 {
        let m0 = d1 + 1;
        let m1 = upper_run_end_exec(t, m0);
        if m1 > m0 && m1 < t.len() && m1 + 1 < t.len() {
            let c1 = *slice_index_get(t, m1);
            let c2 = *slice_index_get(t, m1 + 1);
            if c1 == 62 && c2 == 41 {
                proof {
                    lemma_marker_end(t@, i as int);
                }
                return Some(MarkerShape { d1, m0, m1, end: m1 + 2, has_mod: true });
            }
        }
        return None;
    } else {
        let m1 = upper_run_end_exec(t, d1);
        if m1 == d1 {
            if b == 41 {
                proof {
                    lemma_marker_end(t@, i as int);
                }
                return Some(MarkerShape { d1, m0: d1, m1: d1, end: d1 + 1, has_mod: false });
            }
            return None;
        } else {
            if m1 < t.len() {
                let c = *slice_index_get(t, m1);
                if c == 41 {
                    proof {
                        lemma_marker_end(t@, i as int);
                    }
                    return Some(MarkerShape { d1, m0: d1, m1, end: m1 + 1, has_mod: true });
                }
            }
            return None;
        }
    }
}

/// Compile a replacement template into a plan.
///
/// Exactly the templates in which every unescaped marker carries a
/// group number, every live marker's modifier is registered, and
/// every group number fits a machine word compile; the first
/// offending marker decides the error.
pub fn parse_replace(template: &[u8]) -> (r: Result<Vec<ReplacePart>, ConfigError>)
    ensures
        match r {
            Ok(plan) => tmpl_spec(template@, 0) == Ok::<Seq<PartV>, TmplErr>(plan_view(plan@)),
            Err(ConfigError::UnknownModifier(n)) => tmpl_spec(template@, 0) == Err::<
                Seq<PartV>,
                TmplErr,
            >(TmplErr::UnknownModifier(n@)),
            Err(ConfigError::GroupTooBig) => tmpl_spec(template@, 0) == Err::<
                Seq<PartV>,
                TmplErr,
            >(TmplErr::GroupTooBig),
            Err(ConfigError::EmptyGroupNumber) => tmpl_spec(template@, 0) == Err::<
                Seq<PartV>,
                TmplErr,
            >(TmplErr::EmptyGroupNumber),
            Err(_) => false,
        },
{
    let t = template;
    let mut acc: Vec<ReplacePart> = Vec::new();
    let mut run: Vec<u8> = Vec::new();
    let mut i: usize = 0;
    while i < t.len()
        invariant
            t@ == template@,
            i <= t@.len(),
            match tmpl_spec(t@, i as int) {
                Ok(rest) => tmpl_spec(t@, 0) == Ok::<Seq<PartV>, TmplErr>(
                    plan_view(acc@) + cons_lit(run@, rest),
                ),
                Err(e) => tmpl_spec(t@, 0) == Err::<Seq<PartV>, TmplErr>(e),
            },
        decreases t@.len() - i,
    {
        let ghost pre_run = run@;
        let ghost pre_acc = acc@;
        let b = *slice_index_get(t, i);
        let mut live: Option<MarkerShape> = None;
        let mut handled = false;
        if b == 36 {
            match scan_marker(t, i + 1) {
                Some(ms) => {
                    // escaped marker: its own text becomes literal
                    let bytes = slice_subrange(t, i + 1, ms.end);
                    crate::engine::extend_bytes(&mut run, bytes);
                    proof {
                        let sub = t@.subrange(i + 1, ms.end as int);
                        match tmpl_spec(t@, ms.end as int) {
                            Ok(rest) => {
                                lemma_cons_lit_concat(pre_run, sub, rest);
                            },
                            Err(_) => {},
                        }
                    }
                    i = ms.end;
                    handled = true;
                },
                None => {
                    live = scan_marker(t, i);
                },
            }
        }
        if !handled {
            match live {
                Some(ms) => {
                    proof {
                        lemma_digit_run_end(t@, i + 2);
                    }
                    if ms.d1 == i + 2 {
                        // marker-shaped, unescaped, but no group number
                        proof {
                            assert(!marker_at(t@, i as int));
                            assert(tmpl_spec(t@, i as int) == Err::<Seq<PartV>, TmplErr>(
                                TmplErr::EmptyGroupNumber,
                            ));
                        }
                        return Err(ConfigError::EmptyGroupNumber);
                    }
                    let transform: Option<Modifier> = if ms.has_mod {
                        let name = slice_subrange(t, ms.m0, ms.m1);
                        match get_modifier(name) {
                            Some(m) => Some(m),
                            None => {
                                proof {
                                    assert(tmpl_spec(t@, i as int) == Err::<Seq<PartV>, TmplErr>(
                                        TmplErr::UnknownModifier(
                                            t@.subrange(ms.m0 as int, ms.m1 as int),
                                        ),
                                    ));
                                }
                                return Err(ConfigError::UnknownModifier(slice_to_vec(name)));
                            },
                        }
                    } else {
                        None
                    };
                    let gid: usize = match digits_to_usize(t, i + 2, ms.d1) {
                        Some(v) => v,
                        None => {
                            proof {
                                assert(marker_group(t@, i as int) > usize::MAX as nat);
                                assert(tmpl_spec(t@, i as int) == Err::<Seq<PartV>, TmplErr>(
                                    TmplErr::GroupTooBig,
                                ));
                            }
                            return Err(ConfigError::GroupTooBig);
                        },
                    };
                    if run.len() > 0 {
                        acc.push(ReplacePart::Str(run));
                        proof {
                            assert(plan_view(acc@) =~= plan_view(pre_acc).push(
                                PartV::Str(pre_run),
                            ));
                        }
                        run = Vec::new();
                    }
                    let ghost mid_acc = acc@;
                    acc.push(ReplacePart::Match(GroupRef { id: gid, transform }));
                    proof {
                        assert(plan_view(acc@) =~= plan_view(mid_acc).push(
                            PartV::Match(gid as nat, transform),
                        ));
                        let g = marker_group(t@, i as int);
                        let mv = match marker_mod(t@, i as int) {
                            Some(name) => modifier_spec(name),
                            None => None,
                        };
                        match tmpl_spec(t@, ms.end as int) {
                            Ok(rest) => {
                                let tail = seq![PartV::Match(g, mv)] + rest;
                                assert(cons_lit(pre_run, tail) == if pre_run.len() == 0 {
                                    tail
                                } else {
                                    seq![PartV::Str(pre_run)] + tail
                                });
                                assert(plan_view(pre_acc) + cons_lit(pre_run, tail) =~= plan_view(
                                    acc@,
                                ) + rest);
                            },
                            Err(_) => {},
                        }
                    }
                    i = ms.end;
                },
                None => {
                    // ordinary literal byte
                    proof {
                        match tmpl_spec(t@, i + 1) {
                            Ok(rest) => {
                                lemma_cons_lit_concat(pre_run, seq![t@[i as int]], rest);
                                assert(pre_run + seq![t@[i as int]] =~= pre_run.push(
                                    t@[i as int],
                                ));
                            },
                            Err(_) => {},
                        }
                    }
                    run.push(b);
                    i = i + 1;
                },
            }
        }
    }
    if run.len() > 0 {
        let ghost fin_acc = acc@;
        let ghost fin_run = run@;
        acc.push(ReplacePart::Str(run));
        proof {
            assert(plan_view(acc@) =~= plan_view(fin_acc).push(PartV::Str(fin_run)));
            assert(cons_lit(fin_run, Seq::<PartV>::empty()) =~= seq![PartV::Str(fin_run)]);
            assert(plan_view(fin_acc) + seq![PartV::Str(fin_run)] =~= plan_view(fin_acc).push(
                PartV::Str(fin_run),
            ));
        }
    } else {
        proof {
            assert(plan_view(acc@) + cons_lit(run@, Seq::<PartV>::empty()) =~= plan_view(acc@));
        }
    }
    Ok(acc)
}

} // verus!
