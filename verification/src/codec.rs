//! The byte codec for the task collection: a line-oriented text document.
//!
//! The document holds one line with the id counter, then one line per task:
//! the id, the completion flag (`0` or `1`), the two timestamps and the text,
//! separated by `|`, each line ended by a line feed. Stored text never holds
//! a line break, so the format frames records unambiguously; numbers are
//! written in canonical decimal, and the decoder accepts exactly the
//! canonical encodings, so encoding and decoding round-trip. Empty input
//! decodes to the empty collection: no prior save is not a failure.

use vstd::prelude::*;
use crate::errors::TodoError;
use crate::store::{FilterType, StoreView, TaskStore, views_of};
use crate::task::{Task, TaskView};
use crate::text::{valid_stored_text, is_break};

verus! {

/// The field separator, `|`.
pub const SEP: u8 = 124;

/// The record separator, a line feed.
pub const NL: u8 = 10;

/// Whether `b` is an ASCII decimal digit.
pub open spec fn is_digit(b: u8) -> bool {
    48 <= b <= 57
}

/// Every byte of `s` is a decimal digit.
pub open spec fn all_digits(s: Seq<u8>) -> bool {
    forall|k: int| 0 <= k < s.len() ==> is_digit(#[trigger] s[k])
}

/// The canonical decimal digits of `n`, most significant first.
pub open spec fn enc_u64(n: nat) -> Seq<u8>
    decreases n,
{
    if n < 10 {
        seq![(48 + n) as u8]
    } else {
        enc_u64(n / 10) + seq![(48 + n % 10) as u8]
    }
}

/// The number a digit string denotes.
pub open spec fn digits_val(s: Seq<u8>) -> int
    decreases s.len(),
{
    if s.len() == 0 {
        0
    } else {
        digits_val(s.drop_last()) * 10 + (s.last() - 48)
    }
}

/// A canonical unsigned decimal: at least one digit, no leading zero except
/// for zero itself, and a value that fits in a `u64`.
pub open spec fn canonical_u64(s: Seq<u8>) -> bool {
    &&& s.len() >= 1
    &&& all_digits(s)
    &&& (s.len() > 1 ==> s[0] != 48)
    &&& 0 <= digits_val(s) <= u64::MAX
}

/// What a field parses to as a `u64`: the denoted number exactly when the
/// field is a canonical decimal.
pub open spec fn parse_u64(s: Seq<u8>) -> Option<u64> {
    if canonical_u64(s) {
        Some(digits_val(s) as u64)
    } else {
        None
    }
}

/// The canonical decimal of a signed value: a leading minus sign for
/// negative values, no minus zero.
pub open spec fn enc_i64(v: int) -> Seq<u8> {
    if v < 0 {
        seq![45u8] + enc_u64((-v) as nat)
    } else {
        enc_u64(v as nat)
    }
}

/// What a field parses to as an `i64`: the denoted value exactly when the
/// field is a canonical signed decimal in range.
pub open spec fn parse_i64(s: Seq<u8>) -> Option<i64> {
    if s.len() >= 1 && s[0] == 45 {
        let d = s.subrange(1, s.len() as int);
        if d.len() >= 1 && all_digits(d) && (d.len() > 1 ==> d[0] != 48) && 1 <= digits_val(d)
            <= 0x8000000000000000 {
            Some((-digits_val(d)) as i64)
        } else {
            None
        }
    } else if s.len() >= 1 && all_digits(s) && (s.len() > 1 ==> s[0] != 48) && 0 <= digits_val(s)
        <= i64::MAX {
        Some(digits_val(s) as i64)
    } else {
        None
    }
}

/// One record's line, without the terminating line feed.
pub open spec fn enc_task_line(t: TaskView) -> Seq<u8> {
    enc_u64(t.id as nat) + seq![SEP] + seq![if t.completed { 49u8 } else { 48u8 }] + seq![SEP]
        + enc_i64(t.created_at as int) + seq![SEP] + enc_i64(t.updated_at as int) + seq![SEP]
        + t.text
}

/// The records' lines, each ended by a line feed.
pub open spec fn enc_tasks(ts: Seq<TaskView>) -> Seq<u8>
    decreases ts.len(),
{
    if ts.len() == 0 {
        Seq::empty()
    } else {
        enc_task_line(ts.first()) + seq![NL] + enc_tasks(ts.drop_first())
    }
}

/// The whole document: the id counter's line, then the records.
pub open spec fn enc_store(v: StoreView) -> Seq<u8> {
    enc_u64(v.next_id as nat) + seq![NL] + enc_tasks(v.tasks)
}

/// The first index at or after `from` holding `b`, or `-1` if there is none.
pub open spec fn find_byte(s: Seq<u8>, b: u8, from: int) -> int
    decreases s.len() - from when 0 <= from <= s.len()
{
    if from >= s.len() {
        -1
    } else if s[from] == b {
        from
    } else {
        find_byte(s, b, from + 1)
    }
}

/// What one record's line parses to: the task, exactly when every field is
/// canonical and the text is fit for storage.
pub open spec fn parse_task_line(line: Seq<u8>) -> Option<TaskView> {
    let p1 = find_byte(line, SEP, 0);
    if p1 < 0 || p1 >= line.len() {
        None
    } else if parse_u64(line.subrange(0, p1)) is None {
        None
    } else if p1 + 2 >= line.len() {
        None
    } else if !(line[p1 + 1] == 48 || line[p1 + 1] == 49) {
        None
    } else if line[p1 + 2] != SEP {
        None
    } else {
        let id = parse_u64(line.subrange(0, p1))->0;
        let completed = line[p1 + 1] == 49;
        let p2 = find_byte(line, SEP, p1 + 3);
        if p2 < 0 || p2 >= line.len() {
            None
        } else if parse_i64(line.subrange(p1 + 3, p2)) is None {
            None
        } else {
            let created = parse_i64(line.subrange(p1 + 3, p2))->0;
            let p3 = find_byte(line, SEP, p2 + 1);
            if p3 < 0 || p3 >= line.len() {
                None
            } else if parse_i64(line.subrange(p2 + 1, p3)) is None {
                None
            } else {
                let updated = parse_i64(line.subrange(p2 + 1, p3))->0;
                let text = line.subrange(p3 + 1, line.len() as int);
                if !valid_stored_text(text) {
                    None
                } else {
                    Some(TaskView {
                        id,
                        text,
                        completed,
                        created_at: created,
                        updated_at: updated,
                    })
                }
            }
        }
    }
}

/// What the record lines parse to: the tasks, exactly when every line is a
/// canonical record, ids strictly increase (each above `prev_id`), and every
/// id lies below `next_id`.
pub open spec fn parse_tasks(b: Seq<u8>, next_id: u64, prev_id: u64) -> Option<Seq<TaskView>>
    decreases b.len(),
{
    if b.len() == 0 {
        Some(Seq::empty())
    } else {
        let nl = find_byte(b, NL, 0);
        if nl < 0 || nl >= b.len() {
            None
        } else {
            match parse_task_line(b.subrange(0, nl)) {
                None => None,
                Some(t) => {
                    if !(t.id > prev_id && t.id < next_id) {
                        None
                    } else {
                        match parse_tasks(b.subrange(nl + 1, b.len() as int), next_id, t.id) {
                            None => None,
                            Some(ts) => Some(seq![t] + ts),
                        }
                    }
                },
            }
        }
    }
}

/// What a document parses to: the collection, exactly when the document is a
/// canonical encoding; the empty document is the empty collection.
pub open spec fn parse_store(b: Seq<u8>) -> Option<StoreView> {
    if b.len() == 0 {
        Some(StoreView::empty())
    } else {
        let nl = find_byte(b, NL, 0);
        if nl < 0 || nl >= b.len() {
            None
        } else {
            match parse_u64(b.subrange(0, nl)) {
                None => None,
                Some(next) => {
                    if next < 1 {
                        None
                    } else {
                        match parse_tasks(b.subrange(nl + 1, b.len() as int), next, 0) {
                            None => None,
                            Some(ts) => Some(StoreView { tasks: ts, next_id: next }),
                        }
                    }
                },
            }
        }
    }
}

pub proof fn lemma_find_byte_at(s: Seq<u8>, b: u8, from: int, at: int)
    requires
        0 <= from <= at < s.len(),
        s[at] == b,
        forall|k: int| from <= k < at ==> s[k] != b,
    ensures
        find_byte(s, b, from) == at,
    decreases at - from,
{
    if from < at {
        lemma_find_byte_at(s, b, from + 1, at);
    }
}

pub proof fn lemma_find_byte_none(s: Seq<u8>, b: u8, from: int)
    requires
        0 <= from <= s.len(),
        forall|k: int| from <= k < s.len() ==> s[k] != b,
    ensures
        find_byte(s, b, from) == -1,
    decreases s.len() - from,
{
    if from < s.len() {
        lemma_find_byte_none(s, b, from + 1);
    }
}

/// The canonical digits of `n` are digits, denote `n`, and carry no leading
/// zero.
pub proof fn lemma_enc_u64(n: nat)
    ensures
        enc_u64(n).len() >= 1,
        all_digits(enc_u64(n)),
        n > 0 ==> enc_u64(n)[0] != 48,
        enc_u64(n).len() > 1 ==> n >= 10,
        digits_val(enc_u64(n)) == n,
    decreases n,
{
    if n < 10 {
        let s = enc_u64(n);
        assert(s =~= seq![(48 + n) as u8]);
        assert(s.drop_last() =~= Seq::<u8>::empty());
        assert(digits_val(s.drop_last()) == 0);
        assert(digits_val(s) == n);
    } else {
        lemma_enc_u64(n / 10);
        let a = enc_u64(n / 10);
        let d = (48 + n % 10) as u8;
        let s = enc_u64(n);
        assert(s == a + seq![d]);
        assert(s.drop_last() =~= a);
        assert(s.last() == d);
        assert forall|k: int| 0 <= k < s.len() implies is_digit(#[trigger] s[k]) by {
            if k < a.len() {
                assert(is_digit(a[k]));
            }
        }
        assert(s[0] == a[0]);
        assert(digits_val(s) == digits_val(a) * 10 + (d - 48));
        assert(digits_val(s) == n);
    }
}

/// Parsing inverts encoding for `u64` fields.
pub proof fn lemma_parse_u64_enc(n: u64)
    ensures
        parse_u64(enc_u64(n as nat)) == Some(n),
{
    lemma_enc_u64(n as nat);
}

/// Parsing inverts encoding for `i64` fields.
pub proof fn lemma_parse_i64_enc(v: i64)
    ensures
        parse_i64(enc_i64(v as int)) == Some(v),
{
    let s = enc_i64(v as int);
    if v < 0 {
        let m = (-(v as int)) as nat;
        lemma_enc_u64(m);
        assert(s == seq![45u8] + enc_u64(m));
        assert(s[0] == 45);
        assert(s.subrange(1, s.len() as int) =~= enc_u64(m));
        assert(m >= 1);
        assert(m <= 0x8000000000000000);
    } else {
        lemma_enc_u64(v as nat);
        assert(s == enc_u64(v as nat));
        assert(is_digit(s[0]));
        assert(s[0] != 45);
        assert(digits_val(s) == v);
    }
}

/// No byte of a number field is a separator or a line feed.
pub proof fn lemma_enc_i64_bytes(v: int)
    ensures
        forall|k: int| 0 <= k < enc_i64(v).len()
            ==> #[trigger] enc_i64(v)[k] != SEP && enc_i64(v)[k] != NL,
{
    let s = enc_i64(v);
    if v < 0 {
        lemma_enc_u64((-v) as nat);
        assert forall|k: int| 0 <= k < s.len() implies #[trigger] s[k] != SEP && s[k] != NL by {
            if k >= 1 {
                assert(s[k] == enc_u64((-v) as nat)[k - 1]);
                assert(is_digit(s[k]));
            }
        }
    } else {
        lemma_enc_u64(v as nat);
        assert forall|k: int| 0 <= k < s.len() implies #[trigger] s[k] != SEP && s[k] != NL by {
            assert(is_digit(s[k]));
        }
    }
}

/// A record's line holds no line feed, so the document's framing is sound.
pub proof fn lemma_task_line_bytes(t: TaskView)
    requires
        valid_stored_text(t.text),
    ensures
        forall|k: int| 0 <= k < enc_task_line(t).len() ==> #[trigger] enc_task_line(t)[k] != NL,
{
    let a = enc_u64(t.id as nat);
    let flag = if t.completed { 49u8 } else { 48u8 };
    let c = enc_i64(t.created_at as int);
    let u = enc_i64(t.updated_at as int);
    let line = enc_task_line(t);
    let n1 = a.len() as int;
    let p2 = n1 + 3 + c.len() as int;
    let p3 = p2 + 1 + u.len() as int;
    lemma_enc_u64(t.id as nat);
    lemma_enc_i64_bytes(t.created_at as int);
    lemma_enc_i64_bytes(t.updated_at as int);
    assert(line.len() == p3 + 1 + t.text.len());
    assert forall|k: int| 0 <= k < line.len() implies #[trigger] line[k] != NL by {
        if k < n1 {
            assert(line[k] == a[k]);
            assert(is_digit(a[k]));
        } else if k == n1 || k == n1 + 2 {
            assert(line[k] == SEP);
        } else if k == n1 + 1 {
            assert(line[k] == flag);
        } else if k < p2 {
            assert(line[k] == c[k - (n1 + 3)]);
        } else if k == p2 {
            assert(line[k] == SEP);
        } else if k < p3 {
            assert(line[k] == u[k - (p2 + 1)]);
        } else if k == p3 {
            assert(line[k] == SEP);
        } else {
            assert(line[k] == t.text[k - (p3 + 1)]);
            assert(!is_break(t.text[k - (p3 + 1)]));
        }
    }
}

/// Parsing inverts encoding for one record's line.
pub proof fn lemma_parse_task_line_enc(t: TaskView)
    requires
        valid_stored_text(t.text),
    ensures
        parse_task_line(enc_task_line(t)) == Some(t),
{
    let a = enc_u64(t.id as nat);
    let flag = if t.completed { 49u8 } else { 48u8 };
    let c = enc_i64(t.created_at as int);
    let u = enc_i64(t.updated_at as int);
    let line = enc_task_line(t);
    let n1 = a.len() as int;
    let p2 = n1 + 3 + c.len() as int;
    let p3 = p2 + 1 + u.len() as int;
    lemma_enc_u64(t.id as nat);
    lemma_enc_i64_bytes(t.created_at as int);
    lemma_enc_i64_bytes(t.updated_at as int);
    assert(line.len() == p3 + 1 + t.text.len());
    assert(line[n1] == SEP);
    assert(line[n1 + 1] == flag);
    assert(line[n1 + 2] == SEP);
    assert(line[p2] == SEP);
    assert(line[p3] == SEP);
    assert forall|k: int| 0 <= k < n1 implies line[k] != SEP by {
        assert(line[k] == a[k]);
        assert(is_digit(a[k]));
    }
    lemma_find_byte_at(line, SEP, 0, n1);
    assert(line.subrange(0, n1) =~= a);
    lemma_parse_u64_enc(t.id);
    assert(parse_u64(line.subrange(0, n1)) == Some(t.id));
    assert forall|k: int| n1 + 3 <= k < p2 implies line[k] != SEP by {
        assert(line[k] == c[k - (n1 + 3)]);
    }
    lemma_find_byte_at(line, SEP, n1 + 3, p2);
    assert(line.subrange(n1 + 3, p2) =~= c);
    lemma_parse_i64_enc(t.created_at);
    assert(parse_i64(line.subrange(n1 + 3, p2)) == Some(t.created_at));
    assert forall|k: int| p2 + 1 <= k < p3 implies line[k] != SEP by {
        assert(line[k] == u[k - (p2 + 1)]);
    }
    lemma_find_byte_at(line, SEP, p2 + 1, p3);
    assert(line.subrange(p2 + 1, p3) =~= u);
    lemma_parse_i64_enc(t.updated_at);
    assert(parse_i64(line.subrange(p2 + 1, p3)) == Some(t.updated_at));
    assert(line.subrange(p3 + 1, line.len() as int) =~= t.text);
    assert((flag == 49) == t.completed);
}

/// Appending one record to the task sequence appends one line to the
/// encoded records.
pub proof fn lemma_enc_tasks_push(ts: Seq<TaskView>, t: TaskView)
    ensures
        enc_tasks(ts.push(t)) == enc_tasks(ts) + enc_task_line(t) + seq![NL],
    decreases ts.len(),
{
    if ts.len() == 0 {
        assert(ts.push(t).first() == t);
        assert(ts.push(t).drop_first() =~= Seq::<TaskView>::empty());
        assert(enc_tasks(ts.push(t).drop_first()) =~= Seq::<u8>::empty());
        assert(enc_tasks(ts) =~= Seq::<u8>::empty());
        assert(enc_tasks(ts.push(t)) =~= enc_tasks(ts) + enc_task_line(t) + seq![NL]);
    } else {
        assert(ts.push(t).first() == ts.first());
        assert(ts.push(t).drop_first() =~= ts.drop_first().push(t));
        lemma_enc_tasks_push(ts.drop_first(), t);
        assert(enc_tasks(ts.push(t)) =~= enc_tasks(ts) + enc_task_line(t) + seq![NL]);
    }
}

/// Parsing inverts encoding for the record lines, under the conditions the
/// store's invariant provides: storable texts and strictly increasing ids
/// below the counter and above `prev_id`.
pub proof fn lemma_parse_tasks_enc(ts: Seq<TaskView>, next_id: u64, prev_id: u64)
    requires
        forall|i: int| 0 <= i < ts.len() ==> valid_stored_text((#[trigger] ts[i]).text),
        forall|i: int| 0 <= i < ts.len() ==> (#[trigger] ts[i]).id < next_id,
        forall|i: int, j: int| #![trigger ts[i], ts[j]]
            0 <= i < j < ts.len() ==> ts[i].id < ts[j].id,
        ts.len() > 0 ==> ts[0].id > prev_id,
    ensures
        parse_tasks(enc_tasks(ts), next_id, prev_id) == Some(ts),
    decreases ts.len(),
{
    if ts.len() > 0 {
        let t = ts.first();
        let line = enc_task_line(t);
        let rest = enc_tasks(ts.drop_first());
        let b = enc_tasks(ts);
        let nl = line.len() as int;
        assert(b == line + seq![NL] + rest);
        assert(b.len() == nl + 1 + rest.len());
        lemma_task_line_bytes(t);
        assert forall|k: int| 0 <= k < nl implies b[k] != NL by {
            assert(b[k] == line[k]);
        }
        assert(b[nl] == NL);
        lemma_find_byte_at(b, NL, 0, nl);
        assert(b.subrange(0, nl) =~= line);
        lemma_parse_task_line_enc(t);
        assert(parse_task_line(b.subrange(0, nl)) == Some(t));
        assert(b.subrange(nl + 1, b.len() as int) =~= rest);
        assert forall|i: int, j: int| #![trigger ts.drop_first()[i], ts.drop_first()[j]]
            0 <= i < j < ts.drop_first().len()
            implies ts.drop_first()[i].id < ts.drop_first()[j].id by {
            assert(ts.drop_first()[i] == ts[i + 1]);
            assert(ts.drop_first()[j] == ts[j + 1]);
            assert(ts[i + 1].id < ts[j + 1].id);
        }
        assert forall|i: int| 0 <= i < ts.drop_first().len() implies valid_stored_text(
            (#[trigger] ts.drop_first()[i]).text) && ts.drop_first()[i].id < next_id by {
            assert(ts.drop_first()[i] == ts[i + 1]);
        }
        if ts.drop_first().len() > 0 {
            assert(ts.drop_first()[0] == ts[1]);
            assert(ts[0].id < ts[1].id);
        }
        lemma_parse_tasks_enc(ts.drop_first(), next_id, t.id);
        assert(seq![t] + ts.drop_first() =~= ts);
    }
}

/// A digit string denotes a non-negative number.
pub proof fn lemma_digits_val_nonneg(s: Seq<u8>)
    requires
        all_digits(s),
    ensures
        digits_val(s) >= 0,
    decreases s.len(),
{
    if s.len() > 0 {
        assert(all_digits(s.drop_last()));
        lemma_digits_val_nonneg(s.drop_last());
        assert(is_digit(s.last()));
    }
}

/// A digit string denotes at least what any of its prefixes denotes.
pub proof fn lemma_digits_val_prefix(s: Seq<u8>, k: int)
    requires
        all_digits(s),
        0 <= k <= s.len(),
    ensures
        digits_val(s) >= digits_val(s.subrange(0, k)),
    decreases s.len() - k,
{
    if k < s.len() {
        lemma_digits_val_prefix(s, k + 1);
        let p = s.subrange(0, k + 1);
        assert(p.drop_last() =~= s.subrange(0, k));
        assert(p.last() == s[k]);
        assert(is_digit(s[k]));
        assert(all_digits(s.subrange(0, k)));
        lemma_digits_val_nonneg(s.subrange(0, k));
        assert(digits_val(p) == digits_val(s.subrange(0, k)) * 10 + (s[k] - 48));
        assert(digits_val(p) >= digits_val(s.subrange(0, k)));
    } else {
        assert(s.subrange(0, k) =~= s);
    }
}

/// The reversal of a byte sequence.
spec fn rev_bytes(s: Seq<u8>) -> Seq<u8> {
    Seq::new(s.len(), |i: int| s[s.len() - 1 - i])
}

/// Appends the canonical decimal digits of `n`.
fn push_u64(out: &mut Vec<u8>, n: u64)
    ensures
        final(out)@ == old(out)@ + enc_u64(n as nat),
{
    if n == 0 {
        out.push(48);
        proof {
            assert(enc_u64(0) =~= seq![48u8]);
            assert(out@ =~= old(out)@ + enc_u64(0));
        }
        return;
    }
    let mut digits: Vec<u8> = Vec::new();
    let mut m = n;
    while m > 0
        invariant
            m > 0 ==> enc_u64(n as nat) == enc_u64(m as nat) + rev_bytes(digits@),
            m == 0 ==> enc_u64(n as nat) == rev_bytes(digits@),
        decreases m,
    {
        let d: u8 = 48 + (m % 10) as u8;
        let ghost before = digits@;
        digits.push(d);
        proof {
            assert(rev_bytes(digits@) =~= seq![d] + rev_bytes(before));
            if m >= 10 {
                assert(enc_u64(m as nat) == enc_u64((m as nat) / 10) + seq![(48 + (m as nat)
                    % 10) as u8]);
                assert((48 + (m as nat) % 10) as u8 == d);
                assert((m as nat) / 10 == ((m / 10) as nat));
                assert((enc_u64((m / 10) as nat) + seq![d]) + rev_bytes(before)
                    =~= enc_u64((m / 10) as nat) + (seq![d] + rev_bytes(before)));
            } else {
                assert(enc_u64(m as nat) =~= seq![d]);
                assert(seq![d] + rev_bytes(before) =~= rev_bytes(digits@));
            }
        }
        m = m / 10;
    }
    let k = digits.len();
    let ghost out0 = out@;
    let mut j: usize = 0;
    while j < k
        invariant
            0 <= j <= k,
            k == digits@.len(),
            out@ == out0 + rev_bytes(digits@).subrange(0, j as int),
        decreases k - j,
    {
        out.push(digits[k - 1 - j]);
        proof {
            assert(rev_bytes(digits@).subrange(0, j as int + 1)
                =~= rev_bytes(digits@).subrange(0, j as int) + seq![digits@[k - 1 - j]]);
        }
        j += 1;
    }
    proof {
        assert(rev_bytes(digits@).subrange(0, k as int) =~= rev_bytes(digits@));
    }
}

/// Appends the canonical decimal of a signed value.
fn push_i64(out: &mut Vec<u8>, v: i64)
    ensures
        final(out)@ == old(out)@ + enc_i64(v as int),
{
    if v < 0 {
        out.push(45);
        let ghost mid = out@;
        let mag: u64 = (-(v as i128)) as u64;
        proof {
            assert(mag as int == -(v as int));
        }
        push_u64(out, mag);
        proof {
            assert(out@ =~= old(out)@ + (seq![45u8] + enc_u64(mag as nat)));
            assert(enc_i64(v as int) == seq![45u8] + enc_u64((-(v as int)) as nat));
            assert((-(v as int)) as nat == mag as nat);
        }
    } else {
        push_u64(out, v as u64);
        proof {
            assert(enc_i64(v as int) == enc_u64(v as nat));
            assert((v as u64) as nat == v as nat);
        }
    }
}

/// Appends a copy of the given bytes.
fn extend_bytes(out: &mut Vec<u8>, src: &Vec<u8>)
    ensures
        final(out)@ == old(out)@ + src@,
{
    let n = src.len();
    let ghost out0 = out@;
    let mut i: usize = 0;
    while i < n
        invariant
            0 <= i <= n,
            n == src@.len(),
            out@ == out0 + src@.subrange(0, i as int),
        decreases n - i,
    {
        out.push(src[i]);
        proof {
            assert(src@.subrange(0, i as int + 1)
                =~= src@.subrange(0, i as int) + seq![src@[i as int]]);
        }
        i += 1;
    }
    proof {
        assert(src@.subrange(0, n as int) =~= src@);
    }
}

/// Encodes the collection as the canonical document; pure, no I/O.
pub fn encode(s: &TaskStore) -> (out: Vec<u8>)
    ensures
        out@ == enc_store(s@),
{
    let mut out: Vec<u8> = Vec::new();
    push_u64(&mut out, s.next_id);
    out.push(NL);
    proof {
        assert(out@ =~= enc_u64(s@.next_id as nat) + seq![NL]);
        assert(enc_tasks(s@.tasks.subrange(0, 0)) =~= Seq::<u8>::empty());
        assert(out@ =~= enc_u64(s@.next_id as nat) + seq![NL] + enc_tasks(
            s@.tasks.subrange(0, 0)));
    }
    let m = s.tasks.len();
    let mut i: usize = 0;
    while i < m
        invariant
            0 <= i <= m,
            m == s.tasks@.len(),
            out@ == enc_u64(s@.next_id as nat) + seq![NL] + enc_tasks(
                s@.tasks.subrange(0, i as int)),
        decreases m - i,
    {
        let ghost pre = out@;
        let ghost tv = s@.tasks[i as int];
        push_u64(&mut out, s.tasks[i].id);
        out.push(SEP);
        if s.tasks[i].completed {
            out.push(49);
        } else {
            out.push(48);
        }
        out.push(SEP);
        push_i64(&mut out, s.tasks[i].created_at);
        out.push(SEP);
        push_i64(&mut out, s.tasks[i].updated_at);
        out.push(SEP);
        extend_bytes(&mut out, &s.tasks[i].text);
        out.push(NL);
        proof {
            assert(out@ =~= pre + (enc_task_line(tv) + seq![NL]));
            assert(s@.tasks.subrange(0, i as int + 1)
                =~= s@.tasks.subrange(0, i as int).push(tv));
            lemma_enc_tasks_push(s@.tasks.subrange(0, i as int), tv);
            assert(out@ =~= enc_u64(s@.next_id as nat) + seq![NL] + enc_tasks(
                s@.tasks.subrange(0, i as int + 1)));
        }
        i += 1;
    }
    proof {
        assert(s@.tasks.subrange(0, m as int) =~= s@.tasks);
    }
    out
}

/// Round trip: decoding a well-formed collection's encoding yields exactly
/// that collection.
pub proof fn lemma_round_trip(v: StoreView)
    requires
        v.wf(),
    ensures
        parse_store(enc_store(v)) == Some(v),
{
    let h = enc_u64(v.next_id as nat);
    let rest = enc_tasks(v.tasks);
    let b = enc_store(v);
    let nl = h.len() as int;
    lemma_enc_u64(v.next_id as nat);
    assert(b == h + seq![NL] + rest);
    assert(b.len() == nl + 1 + rest.len());
    assert forall|k: int| 0 <= k < nl implies b[k] != NL by {
        assert(b[k] == h[k]);
        assert(is_digit(h[k]));
    }
    assert(b[nl] == NL);
    lemma_find_byte_at(b, NL, 0, nl);
    assert(b.subrange(0, nl) =~= h);
    lemma_parse_u64_enc(v.next_id);
    assert(parse_u64(b.subrange(0, nl)) == Some(v.next_id));
    assert(b.subrange(nl + 1, b.len() as int) =~= rest);
    if v.tasks.len() > 0 {
        assert(v.tasks[0].id >= 1);
    }
    lemma_parse_tasks_enc(v.tasks, v.next_id, 0);
}

/// The first position at or after `from` holding `b`, if any.
fn find_byte_in(s: &[u8], b: u8, from: usize) -> (r: Option<usize>)
    requires
        from <= s@.len(),
    ensures
        r is Some ==> from <= r->0 < s@.len() && find_byte(s@, b, from as int) == r->0 as int,
        r is None ==> find_byte(s@, b, from as int) == -1,
{
    let n = s.len();
    let mut i = from;
    while i < n
        invariant
            from <= i <= n,
            n == s@.len(),
            forall|k: int| from <= k < i ==> s@[k] != b,
        decreases n - i,
    {
        if s[i] == b {
            proof {
                lemma_find_byte_at(s@, b, from as int, i as int);
            }
            return Some(i);
        }
        i += 1;
    }
    proof {
        lemma_find_byte_none(s@, b, from as int);
    }
    None
}

/// Parses a whole field as a canonical unsigned decimal.
fn parse_u64_bytes(s: &[u8]) -> (r: Option<u64>)
    ensures
        r == parse_u64(s@),
{
    let n = s.len();
    if n == 0 {
        return None;
    }
    if n > 1 && s[0] == 48 {
        return None;
    }
    let mut acc: u64 = 0;
    let mut i: usize = 0;
    while i < n
        invariant
            0 <= i <= n,
            n == s@.len(),
            n > 1 ==> s@[0] != 48,
            forall|k: int| 0 <= k < i ==> is_digit(#[trigger] s@[k]),
            acc == digits_val(s@.subrange(0, i as int)),
        decreases n - i,
    {
        let ch = s[i];
        if ch < 48 || ch > 57 {
            assert(!all_digits(s@));
            return None;
        }
        let d = (ch - 48) as u64;
        proof {
            assert(s@.subrange(0, i as int + 1).drop_last() =~= s@.subrange(0, i as int));
            assert(s@.subrange(0, i as int + 1).last() == s@[i as int]);
            assert(all_digits(s@.subrange(0, i as int)));
            lemma_digits_val_nonneg(s@.subrange(0, i as int));
        }
        if acc > (u64::MAX - d) / 10 {
            proof {
                assert(10 * acc + d > u64::MAX) by {
                    assert(acc >= (u64::MAX - d) / 10 + 1);
                    assert(10 * ((u64::MAX - d) / 10 + 1) > u64::MAX - d) by (nonlinear_arith);
                    assert(10 * acc >= 10 * ((u64::MAX - d) / 10 + 1)) by (nonlinear_arith)
                        requires acc >= (u64::MAX - d) / 10 + 1;
                }
                assert(digits_val(s@.subrange(0, i as int + 1)) > u64::MAX);
                if all_digits(s@) {
                    lemma_digits_val_prefix(s@, i as int + 1);
                    assert(digits_val(s@) > u64::MAX);
                }
            }
            return None;
        }
        proof {
            assert(10 * acc + d <= u64::MAX) by {
                assert(acc <= (u64::MAX - d) / 10);
                assert(10 * ((u64::MAX - d) / 10) <= u64::MAX - d) by (nonlinear_arith);
                assert(10 * acc <= 10 * ((u64::MAX - d) / 10)) by (nonlinear_arith)
                    requires acc <= (u64::MAX - d) / 10;
            }
        }
        acc = acc * 10 + d;
        i += 1;
    }
    proof {
        assert(s@.subrange(0, n as int) =~= s@);
        assert(canonical_u64(s@));
    }
    Some(acc)
}

/// Parses a whole field as a canonical signed decimal in `i64` range.
fn parse_i64_bytes(s: &[u8]) -> (r: Option<i64>)
    ensures
        r == parse_i64(s@),
{
    let n = s.len();
    if n == 0 {
        return None;
    }
    if s[0] == 45 {
        let d = vstd::slice::slice_subrange(s, 1, n);
        let ghost dv = s@.subrange(1, n as int);
        match parse_u64_bytes(d) {
            None => {
                proof {
                    if dv.len() >= 1 && all_digits(dv) && (dv.len() > 1 ==> dv[0] != 48) {
                        lemma_digits_val_nonneg(dv);
                        assert(digits_val(dv) > u64::MAX);
                    }
                }
                None
            },
            Some(mag) => {
                if mag < 1 || mag > 0x8000000000000000u64 {
                    return None;
                }
                let r: i64 = (-(mag as i128)) as i64;
                proof {
                    assert(r as int == -(mag as int));
                }
                Some(r)
            },
        }
    } else {
        match parse_u64_bytes(s) {
            None => {
                proof {
                    if s@.len() >= 1 && all_digits(s@) && (s@.len() > 1 ==> s@[0] != 48) {
                        lemma_digits_val_nonneg(s@);
                        assert(digits_val(s@) > u64::MAX);
                    }
                }
                None
            },
            Some(v) => {
                if v > 0x7fffffffffffffffu64 {
                    return None;
                }
                Some(v as i64)
            },
        }
    }
}

/// Parses one record's line into a task.
#[verifier::loop_isolation(false)]
fn parse_line_bytes(line: &[u8]) -> (r: Option<Task>)
    ensures
        r is Some ==> parse_task_line(line@) == Some(r->0@),
        r is None ==> parse_task_line(line@) is None,
{
    let n = line.len();
    let p1 = match find_byte_in(line, SEP, 0) {
        None => {
            return None;
        },
        Some(p) => p,
    };
    let id = match parse_u64_bytes(vstd::slice::slice_subrange(line, 0, p1)) {
        None => {
            return None;
        },
        Some(v) => v,
    };
    if n - p1 <= 2 {
        return None;
    }
    let flag = line[p1 + 1];
    if !(flag == 48 || flag == 49) {
        return None;
    }
    if line[p1 + 2] != SEP {
        return None;
    }
    let completed = flag == 49;
    let p2 = match find_byte_in(line, SEP, p1 + 3) {
        None => {
            return None;
        },
        Some(p) => p,
    };
    let created = match parse_i64_bytes(vstd::slice::slice_subrange(line, p1 + 3, p2)) {
        None => {
            return None;
        },
        Some(v) => v,
    };
    let p3 = match find_byte_in(line, SEP, p2 + 1) {
        None => {
            return None;
        },
        Some(p) => p,
    };
    let updated = match parse_i64_bytes(vstd::slice::slice_subrange(line, p2 + 1, p3)) {
        None => {
            return None;
        },
        Some(v) => v,
    };
    let mut text: Vec<u8> = Vec::new();
    let mut k = p3 + 1;
    while k < n
        invariant
            p3 + 1 <= k <= n,
            n == line@.len(),
            text@ == line@.subrange(p3 + 1 as int, k as int),
        decreases n - k,
    {
        text.push(line[k]);
        proof {
            assert(line@.subrange(p3 + 1 as int, k as int + 1)
                =~= line@.subrange(p3 + 1 as int, k as int) + seq![line@[k as int]]);
        }
        k += 1;
    }
    proof {
        assert(text@ == line@.subrange(p3 + 1 as int, n as int));
    }
    if text.len() == 0 || text.len() > crate::text::MAX_TODO_TEXT_LENGTH {
        return None;
    }
    let mut j: usize = 0;
    while j < text.len()
        invariant
            0 <= j <= text@.len(),
            forall|q: int| 0 <= q < j ==> #[trigger] text@[q] != 0 && !is_break(text@[q]),
        decreases text@.len() - j,
    {
        let b = text[j];
        if b == 0 || b == 10 || b == 13 {
            assert(!valid_stored_text(text@));
            return None;
        }
        j += 1;
    }
    assert(valid_stored_text(text@));
    let t = Task { id, text, completed, created_at: created, updated_at: updated };
    Some(t)
}

/// Decodes a document into a collection. The empty document yields the
/// empty collection; a malformed document is a decode failure. Exactly the
/// canonical documents decode, each to the collection it encodes.
pub fn decode(bytes: &[u8]) -> (r: Result<TaskStore, TodoError>)
    ensures
        parse_store(bytes@) is Some ==> {
            &&& r is Ok
            &&& r->Ok_0@ == parse_store(bytes@)->0
            &&& r->Ok_0.wf()
            &&& r->Ok_0.filter == FilterType::All
        },
        parse_store(bytes@) is None ==> r is Err && r->Err_0 == TodoError::DecodeFailure,
{
    let n = bytes.len();
    if n == 0 {
        let s = TaskStore::new();
        return Ok(s);
    }
    let nl0 = match find_byte_in(bytes, NL, 0) {
        None => {
            return Err(TodoError::DecodeFailure);
        },
        Some(p) => p,
    };
    let next = match parse_u64_bytes(vstd::slice::slice_subrange(bytes, 0, nl0)) {
        None => {
            return Err(TodoError::DecodeFailure);
        },
        Some(v) => v,
    };
    if next < 1 {
        return Err(TodoError::DecodeFailure);
    }
    let pos0 = nl0 + 1;
    let mut acc: Vec<Task> = Vec::new();
    let mut prev: u64 = 0;
    let mut pos = pos0;
    while pos < n
        invariant
            pos0 <= pos <= n,
            n == bytes@.len(),
            next >= 1,
            acc@.len() == 0 ==> prev == 0,
            acc@.len() > 0 ==> views_of(acc@).last().id == prev,
            forall|q: int| 0 <= q < acc@.len() ==> {
                &&& (#[trigger] views_of(acc@)[q]).id >= 1
                &&& views_of(acc@)[q].id < next
                &&& valid_stored_text(views_of(acc@)[q].text)
            },
            forall|q: int, w: int| #![trigger views_of(acc@)[q], views_of(acc@)[w]]
                0 <= q < w < acc@.len() ==> views_of(acc@)[q].id < views_of(acc@)[w].id,
            parse_store(bytes@) == (match parse_tasks(
                bytes@.subrange(pos as int, n as int), next, prev) {
                None => None::<StoreView>,
                Some(ts) => Some(StoreView { tasks: views_of(acc@) + ts, next_id: next }),
            }),
        decreases n - pos,
    {
        let ghost rem = bytes@.subrange(pos as int, n as int);
        let rest = vstd::slice::slice_subrange(bytes, pos, n);
        let nl = match find_byte_in(rest, NL, 0) {
            None => {
                return Err(TodoError::DecodeFailure);
            },
            Some(p) => p,
        };
        let line = vstd::slice::slice_subrange(rest, 0, nl);
        let t = match parse_line_bytes(line) {
            None => {
                return Err(TodoError::DecodeFailure);
            },
            Some(t) => t,
        };
        if !(t.id > prev && t.id < next) {
            return Err(TodoError::DecodeFailure);
        }
        let ghost old_acc = acc@;
        let new_prev = t.id;
        let ghost tv = t@;
        acc.push(t);
        proof {
            let rem2 = rem.subrange(nl as int + 1, rem.len() as int);
            assert(rem2 =~= bytes@.subrange(pos as int + nl as int + 1, n as int));
            assert(rem.subrange(0, nl as int) == line@);
            assert(parse_task_line(rem.subrange(0, nl as int)) == Some(tv));
            assert(parse_tasks(rem, next, prev) == (match parse_tasks(rem2, next, tv.id) {
                None => None::<Seq<TaskView>>,
                Some(ts) => Some(seq![tv] + ts),
            }));
            let rest_parse = parse_tasks(rem2, next, tv.id);
            assert(views_of(acc@) =~= views_of(old_acc).push(tv));
            if rest_parse is Some {
                assert(views_of(old_acc) + (seq![tv] + rest_parse->0)
                    =~= views_of(acc@) + rest_parse->0);
            }
            assert forall|q: int, w: int| #![trigger views_of(acc@)[q], views_of(acc@)[w]]
                0 <= q < w < acc@.len() implies views_of(acc@)[q].id < views_of(acc@)[w].id by {
                if w < old_acc.len() {
                    assert(views_of(old_acc)[q].id < views_of(old_acc)[w].id);
                    assert(views_of(acc@)[q] == views_of(old_acc)[q]);
                    assert(views_of(acc@)[w] == views_of(old_acc)[w]);
                } else {
                    assert(views_of(acc@)[w] == tv);
                    assert(views_of(acc@)[q] == views_of(old_acc)[q]);
                    if q == old_acc.len() - 1 {
                        assert(views_of(old_acc)[q].id == prev);
                    } else {
                        assert(views_of(old_acc)[q].id
                            < views_of(old_acc)[old_acc.len() - 1].id);
                        assert(views_of(old_acc)[old_acc.len() - 1].id == prev);
                    }
                    assert(tv.id > prev);
                }
            }
            assert(views_of(acc@).last() == tv);
        }
        prev = new_prev;
        pos = pos + nl + 1;
    }
    proof {
        assert(bytes@.subrange(n as int, n as int) =~= Seq::<u8>::empty());
        assert(parse_tasks(bytes@.subrange(n as int, n as int), next, prev)
            == Some(Seq::<TaskView>::empty()));
        assert(views_of(acc@) + Seq::<TaskView>::empty() =~= views_of(acc@));
    }
    let store = TaskStore { tasks: acc, next_id: next, filter: FilterType::All };
    proof {
        assert(store@.tasks == views_of(acc@));
        assert(store.wf());
    }
    Ok(store)
}

} // verus!
