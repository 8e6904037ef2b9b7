//! Validation and normalization of untrusted task text.
//!
//! Text is handled as UTF-8 bytes. Normalization trims leading and trailing
//! whitespace — the full Unicode White_Space set, recognized by its UTF-8
//! byte encodings — and collapses each internal line break into a single
//! space, so stored text never contains line breaks; validation rejects
//! empty, over-long and null-containing input before it enters the store.

use vstd::prelude::*;
use vstd::string::StringSliceAdditionalSpecFns;
use crate::errors::ValidationError;

verus! {

/// Maximum allowed length of raw task text, in bytes.
pub const MAX_TODO_TEXT_LENGTH: usize = 500;

/// Single-byte whitespace: tab, line feed, vertical tab, form feed,
/// carriage return, space.
pub open spec fn is_ws1(b: u8) -> bool {
    b == 32 || (9 <= b <= 13)
}

/// Two-byte whitespace encodings: next line (U+0085) and no-break space
/// (U+00A0).
pub open spec fn is_ws2(b0: u8, b1: u8) -> bool {
    b0 == 0xc2 && (b1 == 0x85 || b1 == 0xa0)
}

/// Three-byte whitespace encodings: ogham space mark (U+1680), the figure
/// spaces U+2000 through U+200A, line separator (U+2028), paragraph
/// separator (U+2029), narrow no-break space (U+202F), medium mathematical
/// space (U+205F), and ideographic space (U+3000).
pub open spec fn is_ws3(b0: u8, b1: u8, b2: u8) -> bool {
    ||| (b0 == 0xe1 && b1 == 0x9a && b2 == 0x80)
    ||| (b0 == 0xe2 && b1 == 0x80 && (0x80 <= b2 <= 0x8a || b2 == 0xa8 || b2 == 0xa9 || b2
        == 0xaf))
    ||| (b0 == 0xe2 && b1 == 0x81 && b2 == 0x9f)
    ||| (b0 == 0xe3 && b1 == 0x80 && b2 == 0x80)
}

/// The length of the whitespace unit starting at `i`: the UTF-8 encoding of
/// one Unicode White_Space character, or zero when none starts there. In
/// valid UTF-8 a unit can only match at a character boundary, and it matches
/// exactly the whitespace characters that Rust's `str::trim` removes.
pub open spec fn ws_len(s: Seq<u8>, i: int) -> int {
    if 0 <= i < s.len() && is_ws1(s[i]) {
        1
    } else if 0 <= i && i + 2 <= s.len() && is_ws2(s[i], s[i + 1]) {
        2
    } else if 0 <= i && i + 3 <= s.len() && is_ws3(s[i], s[i + 1], s[i + 2]) {
        3
    } else {
        0
    }
}

/// Line-break bytes: line feed and carriage return.
pub open spec fn is_break(b: u8) -> bool {
    b == 10 || b == 13
}

/// The index just past the whitespace run that starts at `i`.
pub open spec fn run_end(s: Seq<u8>, i: int) -> int
    decreases s.len() - i when 0 <= i <= s.len()
{
    let w = ws_len(s, i);
    if w == 0 {
        i
    } else {
        run_end(s, i + w)
    }
}

pub proof fn lemma_run_end(s: Seq<u8>, i: int)
    requires
        0 <= i <= s.len(),
    ensures
        i <= run_end(s, i) <= s.len(),
        ws_len(s, run_end(s, i)) == 0,
        ws_len(s, i) > 0 ==> run_end(s, i) >= i + ws_len(s, i),
    decreases s.len() - i,
{
    let w = ws_len(s, i);
    if w > 0 {
        lemma_run_end(s, i + w);
    }
}

/// How many line breaks the range `[i, j)` holds, counting a
/// carriage-return-line-feed pair as one break.
pub open spec fn break_count(s: Seq<u8>, i: int, j: int) -> nat
    decreases j - i when 0 <= i <= j <= s.len()
{
    if i >= j {
        0
    } else if s[i] == 13 && i + 1 < j && s[i + 1] == 10 {
        1 + break_count(s, i + 2, j)
    } else if is_break(s[i]) {
        1 + break_count(s, i + 1, j)
    } else {
        break_count(s, i + 1, j)
    }
}

pub proof fn lemma_break_count_bound(s: Seq<u8>, i: int, j: int)
    requires
        0 <= i <= j <= s.len(),
    ensures
        break_count(s, i, j) <= j - i,
        break_count(s, i, j) == 0 ==> forall|k: int| i <= k < j ==> !is_break(s[k]),
    decreases j - i,
{
    if i < j {
        if s[i] == 13 && i + 1 < j && s[i + 1] == 10 {
            lemma_break_count_bound(s, i + 2, j);
        } else {
            lemma_break_count_bound(s, i + 1, j);
        }
    }
}

/// A sequence of `n` space bytes.
pub open spec fn spaces(n: nat) -> Seq<u8> {
    Seq::new(n, |k: int| 32u8)
}

/// The normalized form of `s` from index `i` on. `started` records whether a
/// non-whitespace byte has already been emitted: whitespace before the first
/// such byte, and trailing whitespace, is dropped; an internal whitespace run
/// is kept as it is when it holds no line break, and otherwise is replaced by
/// one space per line break it holds.
pub open spec fn norm_from(s: Seq<u8>, i: int, started: bool) -> Seq<u8>
    decreases s.len() - i when 0 <= i <= s.len() via norm_from_decreases
{
    if i >= s.len() {
        Seq::empty()
    } else if ws_len(s, i) == 0 {
        seq![s[i]] + norm_from(s, i + 1, true)
    } else {
        let j = run_end(s, i);
        if !started || j >= s.len() {
            norm_from(s, j, started)
        } else {
            let b = break_count(s, i, j);
            (if b == 0 { s.subrange(i, j) } else { spaces(b) }) + norm_from(s, j, true)
        }
    }
}

#[via_fn]
proof fn norm_from_decreases(s: Seq<u8>, i: int, started: bool) {
    if 0 <= i < s.len() && ws_len(s, i) != 0 {
        lemma_run_end(s, i);
    }
}

/// The normalized form of raw text: surrounding whitespace removed, each
/// internal line break replaced by a single space.
pub open spec fn normalize(s: Seq<u8>) -> Seq<u8> {
    norm_from(s, 0, false)
}

/// `s` is whitespace throughout — one run of whitespace units — so it trims
/// to nothing.
pub open spec fn all_ws(s: Seq<u8>) -> bool {
    run_end(s, 0) == s.len()
}

/// Some byte of `s` is a null byte.
pub open spec fn has_null(s: Seq<u8>) -> bool {
    exists|k: int| 0 <= k < s.len() && s[k] == 0
}

/// What validation of raw text yields: emptiness is checked first, then the
/// raw (pre-normalization) length, then null bytes.
pub open spec fn validate_spec(s: Seq<u8>) -> Result<(), ValidationError> {
    if all_ws(s) {
        Err(ValidationError::EmptyInput)
    } else if s.len() > MAX_TODO_TEXT_LENGTH {
        Err(ValidationError::TooLong)
    } else if has_null(s) {
        Err(ValidationError::InvalidCharacters)
    } else {
        Ok(())
    }
}

/// Text fit for storage: non-empty, bounded, free of null bytes and of line
/// breaks. Validation followed by normalization establishes this.
pub open spec fn valid_stored_text(t: Seq<u8>) -> bool {
    &&& 1 <= t.len() <= MAX_TODO_TEXT_LENGTH
    &&& forall|k: int| 0 <= k < t.len() ==> t[k] != 0 && !is_break(t[k])
}

pub proof fn lemma_norm_from_props(s: Seq<u8>, i: int, started: bool)
    requires
        0 <= i <= s.len(),
    ensures
        norm_from(s, i, started).len() <= s.len() - i,
        forall|k: int| 0 <= k < norm_from(s, i, started).len()
            ==> !is_break(#[trigger] norm_from(s, i, started)[k]),
        (forall|m: int| i <= m < s.len() ==> s[m] != 0) ==> forall|k: int|
            0 <= k < norm_from(s, i, started).len()
                ==> #[trigger] norm_from(s, i, started)[k] != 0,
        run_end(s, i) < s.len() ==> norm_from(s, i, started).len() > 0,
    decreases s.len() - i,
{
    if i >= s.len() {
    } else if ws_len(s, i) == 0 {
        lemma_norm_from_props(s, i + 1, true);
        assert(!is_break(s[i]));
    } else {
        let j = run_end(s, i);
        lemma_run_end(s, i);
        if !started || j >= s.len() {
            lemma_norm_from_props(s, j, started);
            assert(run_end(s, j) == j);
        } else {
            lemma_norm_from_props(s, j, true);
            lemma_break_count_bound(s, i, j);
            assert(run_end(s, j) == j);
        }
    }
}

/// Validation success guarantees that the normalized text may be stored.
pub proof fn lemma_validated_normalize(s: Seq<u8>)
    ensures
        validate_spec(s) is Ok ==> valid_stored_text(normalize(s)),
{
    if validate_spec(s) is Ok {
        lemma_run_end(s, 0);
        lemma_norm_from_props(s, 0, false);
    }
}

/// The length of the whitespace unit starting at `i`, or zero when none
/// starts there.
pub fn ws_unit_len(s: &[u8], i: usize) -> (w: usize)
    requires
        i <= s@.len(),
    ensures
        w == ws_len(s@, i as int),
{
    let n = s.len();
    if i < n {
        let b0 = s[i];
        if b0 == 32 || (b0 >= 9 && b0 <= 13) {
            return 1;
        }
        if n - i >= 2 {
            let b1 = s[i + 1];
            if b0 == 0xc2 && (b1 == 0x85 || b1 == 0xa0) {
                return 2;
            }
            if n - i >= 3 {
                let b2 = s[i + 2];
                if (b0 == 0xe1 && b1 == 0x9a && b2 == 0x80) || (b0 == 0xe2 && b1 == 0x80 && (
                (b2 >= 0x80 && b2 <= 0x8a) || b2 == 0xa8 || b2 == 0xa9 || b2 == 0xaf)) || (b0
                    == 0xe2 && b1 == 0x81 && b2 == 0x9f) || (b0 == 0xe3 && b1 == 0x80 && b2
                    == 0x80) {
                    return 3;
                }
            }
        }
    }
    0
}

/// Checks raw task text: rejects text that trims to nothing, text whose raw
/// length exceeds the maximum, and text holding a null byte, in that order.
pub fn validate_todo_text(text: &str) -> (r: Result<(), ValidationError>)
    ensures
        r == validate_spec(text.spec_bytes()),
{
    let s = text.as_bytes();
    let n = s.len();
    let mut i: usize = 0;
    while ws_unit_len(s, i) != 0
        invariant
            0 <= i <= n,
            n == s@.len(),
            s@ == text.spec_bytes(),
            run_end(s@, 0) == run_end(s@, i as int),
        decreases n - i,
    {
        let w = ws_unit_len(s, i);
        i += w;
    }
    assert(run_end(s@, i as int) == i as int);
    if i == n {
        return Err(ValidationError::EmptyInput);
    }
    assert(!all_ws(s@));
    if n > MAX_TODO_TEXT_LENGTH {
        return Err(ValidationError::TooLong);
    }
    let mut k: usize = 0;
    while k < n
        invariant
            0 <= k <= n,
            n == s@.len(),
            n <= MAX_TODO_TEXT_LENGTH,
            s@ == text.spec_bytes(),
            !all_ws(s@),
            forall|m: int| 0 <= m < k ==> s@[m] != 0,
        decreases n - k,
    {
        if s[k] == 0 {
            assert(has_null(s@)) by {
                assert(0 <= k < s@.len() && s@[k as int] == 0);
            }
            return Err(ValidationError::InvalidCharacters);
        }
        k += 1;
    }
    assert(!has_null(s@));
    Ok(())
}

/// Normalizes a byte sequence: drops surrounding whitespace and replaces each
/// internal line break by one space, keeping other internal whitespace.
pub fn sanitize_bytes(s: &[u8]) -> (out: Vec<u8>)
    ensures
        out@ == normalize(s@),
{
    let n = s.len();
    let mut out: Vec<u8> = Vec::new();
    let mut i: usize = 0;
    let mut started: bool = false;
    while i < n
        invariant
            0 <= i <= n,
            n == s@.len(),
            normalize(s@) == out@ + norm_from(s@, i as int, started),
        decreases n - i,
    {
        if ws_unit_len(s, i) == 0 {
            let ghost out0 = out@;
            out.push(s[i]);
            proof {
                assert(out@ == out0 + seq![s@[i as int]]);
                assert((out0 + seq![s@[i as int]]) + norm_from(s@, i as int + 1, true)
                    =~= out0 + (seq![s@[i as int]] + norm_from(s@, i as int + 1, true)));
            }
            started = true;
            i += 1;
        } else {
            let ghost rend = run_end(s@, i as int);
            proof {
                lemma_run_end(s@, i as int);
            }
            let run_start = i;
            let mut breaks: usize = 0;
            while ws_unit_len(s, i) != 0
                invariant
                    run_start <= i <= n,
                    n == s@.len(),
                    rend == run_end(s@, i as int),
                    i as int <= rend <= n,
                    breaks <= i - run_start,
                    breaks + break_count(s@, i as int, rend)
                        == break_count(s@, run_start as int, rend),
                decreases n - i,
            {
                let w = ws_unit_len(s, i);
                proof {
                    lemma_run_end(s@, i as int);
                    assert(i as int + w <= rend);
                }
                if s[i] == 13 {
                    if i + 1 < n && s[i + 1] == 10 {
                        proof {
                            assert(ws_len(s@, i as int + 1) == 1);
                            lemma_run_end(s@, i as int + 1);
                            assert(run_end(s@, i as int) == run_end(s@, i as int + 1));
                            assert(i as int + 2 <= rend);
                            assert(break_count(s@, i as int, rend)
                                == 1 + break_count(s@, i as int + 2, rend));
                            assert(run_end(s@, i as int + 1) == run_end(s@, i as int + 2));
                        }
                        i += 2;
                    } else {
                        proof {
                            assert(!(i as int + 1 < rend && s@[i as int + 1] == 10));
                            assert(break_count(s@, i as int, rend)
                                == 1 + break_count(s@, i as int + 1, rend));
                        }
                        i += 1;
                    }
                    breaks += 1;
                } else if s[i] == 10 {
                    i += 1;
                    breaks += 1;
                } else {
                    // a whitespace unit with no line-break byte: skip it whole
                    proof {
                        if w == 2 {
                            assert(s@[i as int] == 0xc2);
                            assert(!is_break(s@[i as int]));
                            assert(!is_break(s@[i as int + 1]));
                            assert(break_count(s@, i as int, rend)
                                == break_count(s@, i as int + 1, rend));
                            assert(break_count(s@, i as int + 1, rend)
                                == break_count(s@, i as int + 2, rend));
                            assert(run_end(s@, i as int) == run_end(s@, i as int + 2));
                        } else if w == 3 {
                            assert(!is_break(s@[i as int]));
                            assert(!is_break(s@[i as int + 1]));
                            assert(!is_break(s@[i as int + 2]));
                            assert(break_count(s@, i as int, rend)
                                == break_count(s@, i as int + 1, rend));
                            assert(break_count(s@, i as int + 1, rend)
                                == break_count(s@, i as int + 2, rend));
                            assert(break_count(s@, i as int + 2, rend)
                                == break_count(s@, i as int + 3, rend));
                            assert(run_end(s@, i as int) == run_end(s@, i as int + 3));
                        } else {
                            assert(w == 1);
                            assert(!is_break(s@[i as int]));
                            assert(break_count(s@, i as int, rend)
                                == break_count(s@, i as int + 1, rend));
                            assert(run_end(s@, i as int) == run_end(s@, i as int + 1));
                        }
                    }
                    i += w;
                }
            }
            proof {
                assert(run_end(s@, i as int) == i as int);
                assert(i as int == rend);
                assert(break_count(s@, rend, rend) == 0);
                assert(breaks == break_count(s@, run_start as int, rend));
            }
            if !started || i == n {
                // a leading or trailing whitespace run is dropped
            } else if breaks == 0 {
                let ghost out0 = out@;
                let mut k = run_start;
                while k < i
                    invariant
                        run_start <= k <= i <= n,
                        n == s@.len(),
                        out@ == out0 + s@.subrange(run_start as int, k as int),
                    decreases i - k,
                {
                    out.push(s[k]);
                    proof {
                        assert(s@.subrange(run_start as int, k as int + 1)
                            =~= s@.subrange(run_start as int, k as int) + seq![s@[k as int]]);
                    }
                    k += 1;
                }
                proof {
                    assert((out0 + s@.subrange(run_start as int, rend))
                        + norm_from(s@, rend, true)
                        =~= out0 + (s@.subrange(run_start as int, rend)
                            + norm_from(s@, rend, true)));
                }
            } else {
                let ghost out0 = out@;
                let mut c: usize = 0;
                while c < breaks
                    invariant
                        0 <= c <= breaks,
                        out@ == out0 + spaces(c as nat),
                    decreases breaks - c,
                {
                    out.push(32);
                    proof {
                        assert(spaces(c as nat + 1) =~= spaces(c as nat) + seq![32u8]);
                    }
                    c += 1;
                }
                proof {
                    assert((out0 + spaces(breaks as nat)) + norm_from(s@, rend, true)
                        =~= out0 + (spaces(breaks as nat) + norm_from(s@, rend, true)));
                }
            }
        }
    }
    proof {
        assert(out@ + norm_from(s@, n as int, started) =~= out@);
    }
    out
}

/// Normalizes raw task text, handing back the normalized bytes: surrounding
/// whitespace is removed and each internal line break becomes one space.
pub fn sanitize_todo_text(text: &str) -> (out: Vec<u8>)
    ensures
        out@ == normalize(text.spec_bytes()),
{
    sanitize_bytes(text.as_bytes())
}

/// Validates raw task text and, on success, hands back its normalized form,
/// which is then fit for storage.
pub fn normalize_and_validate(text: &str) -> (r: Result<Vec<u8>, ValidationError>)
    ensures
        r is Ok <==> validate_spec(text.spec_bytes()) is Ok,
        r is Err ==> r->Err_0 == validate_spec(text.spec_bytes())->Err_0,
        r is Ok ==> r->Ok_0@ == normalize(text.spec_bytes()),
        r is Ok ==> valid_stored_text(r->Ok_0@),
{
    match validate_todo_text(text) {
        Ok(()) => {
            proof {
                lemma_validated_normalize(text.spec_bytes());
            }
            Ok(sanitize_todo_text(text))
        },
        Err(e) => Err(e),
    }
}

} // verus!
