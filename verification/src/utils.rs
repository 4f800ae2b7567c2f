use vstd::prelude::*;
use crate::{Error, Page};

verus! {

// ---------------------------------------------------------------------------
// Decimal digit strings
// ---------------------------------------------------------------------------

pub open spec fn is_digit(c: char) -> bool {
    '0' <= c && c <= '9'
}

pub open spec fn digit_val(c: char) -> int {
    c as int - '0' as int
}

pub open spec fn all_digits(s: Seq<char>) -> bool {
    forall|i: int| 0 <= i < s.len() ==> is_digit(#[trigger] s[i])
}

/// The numeric value of a digit string, most significant digit first.
pub open spec fn digits_val(s: Seq<char>) -> int
    decreases s.len(),
{
    if s.len() == 0 {
        0
    } else {
        digits_val(s.drop_last()) * 10 + digit_val(s.last())
    }
}

/// `s` is a digit string whose value fits in a `u64`.
pub open spec fn u64_digits(s: Seq<char>) -> bool {
    s.len() > 0 && all_digits(s) && digits_val(s) <= u64::MAX
}

pub proof fn lemma_digits_val_nonneg(s: Seq<char>)
    requires
        all_digits(s),
    ensures
        digits_val(s) >= 0,
    decreases s.len(),
{
    if s.len() > 0 {
        assert(all_digits(s.drop_last())) by {
            assert(forall|i: int| 0 <= i < s.len() - 1 ==> s.drop_last()[i] == s[i]);
        }
        lemma_digits_val_nonneg(s.drop_last());
        assert(is_digit(s.last()));
    }
}

/// Prefix values of a digit string never decrease.
proof fn lemma_digits_val_take_monotone(s: Seq<char>, i: int, j: int)
    requires
        all_digits(s),
        0 <= i <= j <= s.len(),
    ensures
        digits_val(s.take(i)) <= digits_val(s.take(j)),
    decreases j - i,
{
    if i < j {
        lemma_digits_val_take_monotone(s, i, j - 1);
        let t = s.take(j);
        assert(t.drop_last() =~= s.take(j - 1));
        assert(all_digits(s.take(j - 1))) by {
            assert(forall|k: int| 0 <= k < j - 1 ==> s.take(j - 1)[k] == s[k]);
        }
        lemma_digits_val_nonneg(s.take(j - 1));
        assert(is_digit(t.last()));
    }
}

/// Parse a decimal digit string into a `u64`.
///
/// Returns the value exactly when the string is non-empty, consists of
/// digits only, and the value fits; anything else yields `None`.
pub fn parse_u64(s: &str) -> (r: Option<u64>)
    ensures
        r is Some <==> u64_digits(s@),
        r is Some ==> r->0 == digits_val(s@),
{
    let n = s.unicode_len();
    if n == 0 {
        return None;
    }
    let mut acc: u64 = 0;
    let mut i: usize = 0;
    while i < n
        invariant
            0 < n == s@.len(),
            i <= n,
            all_digits(s@.take(i as int)),
            acc == digits_val(s@.take(i as int)),
        decreases n - i,
    {
        let c = s.get_char(i);
        if c < '0' || c > '9' {
            assert(!is_digit(s@[i as int]));
            return None;
        }
        let d = (c as u32) as u64 - 48;
        let next = match acc.checked_mul(10) {
            Some(m) => m.checked_add(d),
            None => None,
        };
        proof {
            assert(s@.take(i + 1).drop_last() =~= s@.take(i as int));
            assert(s@.take(i + 1).last() == s@[i as int]);
            assert(all_digits(s@.take(i + 1)));
        }
        match next {
            Some(v) => {
                acc = v;
            }
            None => {
                proof {
                    assert(digits_val(s@.take(i + 1)) > u64::MAX);
                    if u64_digits(s@) {
                        lemma_digits_val_take_monotone(s@, i + 1, n as int);
                        assert(s@.take(n as int) =~= s@);
                        assert(false);
                    }
                }
                return None;
            }
        }
        i += 1;
    }
    proof {
        assert(s@.take(n as int) =~= s@);
        lemma_digits_val_nonneg(s@);
    }
    Some(acc)
}

// ---------------------------------------------------------------------------
// clean_string
// ---------------------------------------------------------------------------

/// Longest run of `c` removed from the front.
pub open spec fn trim_front(s: Seq<char>, c: char) -> Seq<char>
    decreases s.len(),
{
    if s.len() > 0 && s[0] == c {
        trim_front(s.drop_first(), c)
    } else {
        s
    }
}

/// Longest run of `c` removed from the back.
pub open spec fn trim_back(s: Seq<char>, c: char) -> Seq<char>
    decreases s.len(),
{
    if s.len() > 0 && s.last() == c {
        trim_back(s.drop_last(), c)
    } else {
        s
    }
}

/// Longest runs of `c` removed from both ends.
pub open spec fn trim_both(s: Seq<char>, c: char) -> Seq<char> {
    trim_back(trim_front(s, c), c)
}

proof fn lemma_trim_front_subrange(s: Seq<char>, c: char, a: int)
    requires
        0 <= a <= s.len(),
        forall|j: int| 0 <= j < a ==> s[j] == c,
        a < s.len() ==> s[a] != c,
    ensures
        trim_front(s, c) =~= s.subrange(a, s.len() as int),
    decreases a,
{
    if a == 0 {
        if s.len() > 0 && s[0] == c {
            assert(false);
        }
        assert(s.subrange(0, s.len() as int) =~= s);
    } else {
        let t = s.drop_first();
        lemma_trim_front_subrange(t, c, a - 1);
        assert(t.subrange(a - 1, t.len() as int) =~= s.subrange(a, s.len() as int));
    }
}

proof fn lemma_trim_back_subrange(s: Seq<char>, c: char, b: int)
    requires
        0 <= b <= s.len(),
        forall|j: int| b <= j < s.len() ==> s[j] == c,
        b > 0 ==> s[b - 1] != c,
    ensures
        trim_back(s, c) =~= s.subrange(0, b),
    decreases s.len() - b,
{
    if b == s.len() {
        if s.len() > 0 && s.last() == c {
            assert(false);
        }
        assert(s.subrange(0, s.len() as int) =~= s);
    } else {
        let t = s.drop_last();
        lemma_trim_back_subrange(t, c, b);
        assert(t.subrange(0, b) =~= s.subrange(0, b));
    }
}

/// Remove every leading and trailing `c` from `s`.
fn trim_char(s: &str, c: char) -> (r: String)
    ensures
        r@ == trim_both(s@, c),
{
    let n = s.unicode_len();
    let mut a: usize = 0;
    while a < n && s.get_char(a) == c
        invariant
            n == s@.len(),
            a <= n,
            forall|j: int| 0 <= j < a ==> s@[j] == c,
        decreases n - a,
    {
        a += 1;
    }
    let mut b: usize = n;
    while b > a && s.get_char(b - 1) == c
        invariant
            n == s@.len(),
            a <= b <= n,
            forall|j: int| b <= j < n ==> s@[j] == c,
        decreases b,
    {
        b -= 1;
    }
    proof {
        lemma_trim_front_subrange(s@, c, a as int);
        let f = s@.subrange(a as int, s@.len() as int);
        if b > a {
            lemma_trim_back_subrange(f, c, b - a);
        } else {
            lemma_trim_back_subrange(f, c, 0);
        }
        assert(f.subrange(0, b - a) =~= s@.subrange(a as int, b as int));
    }
    let cut = s.substring_char(a, b);
    cut.to_owned()
}

/// Strip NUL padding and surrounding double quotes from an on-chain string.
pub fn clean_string(s: String) -> (r: String)
    ensures
        r@ == trim_both(trim_both(s@, '\u{0}'), '"'),
{
    let depadded = trim_char(s.as_str(), '\u{0}');
    trim_char(depadded.as_str(), '"')
}

// ---------------------------------------------------------------------------
// create_batches
// ---------------------------------------------------------------------------

/// The batches the signature list is fetched in: consecutive chunks of
/// `bs` items, cut short by the remaining `limit`; once the limit cuts a
/// chunk, that (possibly empty) chunk is the last.
pub open spec fn batches_spec(s: Seq<Seq<char>>, start: int, bs: int, rem: Option<int>) -> Seq<Seq<Seq<char>>>
    recommends
        bs > 0,
        0 <= start,
    decreases s.len() - start when bs > 0 && 0 <= start <= s.len()
{
    if start >= s.len() {
        Seq::empty()
    } else {
        let end = if start + bs <= s.len() { start + bs } else { s.len() as int };
        let b = s.subrange(start, end);
        match rem {
            None => seq![b] + batches_spec(s, end, bs, None),
            Some(r) => {
                if b.len() > r {
                    seq![s.subrange(start, start + r)]
                } else {
                    seq![b] + batches_spec(s, end, bs, Some(r - b.len()))
                }
            }
        }
    }
}

/// Clone the range `[a, b)` of a string vector.
pub(crate) fn copy_range(v: &Vec<String>, a: usize, b: usize) -> (r: Vec<String>)
    requires
        a <= b <= v@.len(),
    ensures
        r@.map_values(|x: String| x@) =~= v@.map_values(|x: String| x@).subrange(a as int, b as int),
        r@.len() == b - a,
    {
    let mut r: Vec<String> = Vec::new();
    let mut i: usize = a;
    while i < b
        invariant
            a <= i <= b <= v@.len(),
            r@.len() == i - a,
            forall|j: int| 0 <= j < r@.len() ==> r@[j]@ == v@[a + j]@,
        decreases b - i,
    {
        r.push(v[i].clone());
        i += 1;
    }
    r
}

/// Split the signature list into fetch batches of `batch_size`, stopping
/// after `limit` total signatures when a limit is given.
#[verifier::loop_isolation(false)]
pub fn create_batches(arr: &Vec<String>, batch_size: usize, limit: Option<u32>) -> (r: Vec<Vec<String>>)
    requires
        batch_size > 0,
    ensures
        r@.map_values(|b: Vec<String>| b@.map_values(|x: String| x@)) == batches_spec(
            arr@.map_values(|x: String| x@),
            0,
            batch_size as int,
            match limit {
                Some(l) => Some(l as int),
                None => None,
            },
        ),
{
    let ghost s = arr@.map_values(|x: String| x@);
    let ghost rem0: Option<int> = match limit {
        Some(l) => Some(l as int),
        None => None,
    };
    let mut out: Vec<Vec<String>> = Vec::new();
    let n = arr.len();
    let mut pos: usize = 0;
    let mut remaining: Option<u32> = limit;
    while pos < n
        invariant
            n == arr@.len(),
            s == arr@.map_values(|x: String| x@),
            batch_size > 0,
            pos <= n,
            remaining matches Some(rr) ==> rr >= 0,
            batches_spec(s, 0, batch_size as int, rem0) == out@.map_values(
                |b: Vec<String>| b@.map_values(|x: String| x@),
            ) + batches_spec(
                s,
                pos as int,
                batch_size as int,
                match remaining {
                    Some(rr) => Some(rr as int),
                    None => None,
                },
            ),
        decreases n - pos,
    {
        let end = if n - pos < batch_size {
            n
        } else {
            pos + batch_size
        };
        let blen = end - pos;
        let ghost pre_out = out@;
        match remaining {
            None => {
                let b = copy_range(arr, pos, end);
                out.push(b);
                proof {
                    assert(out@.map_values(|b: Vec<String>| b@.map_values(|x: String| x@))
                        =~= pre_out.map_values(|b: Vec<String>| b@.map_values(|x: String| x@))
                            + seq![s.subrange(pos as int, end as int)]);
                }
                pos = end;
            }
            Some(rr) => {
                if blen > rr as usize {
                    let cut = pos + rr as usize;
                    let b = copy_range(arr, pos, cut);
                    out.push(b);
                    proof {
                        assert(batches_spec(s, pos as int, batch_size as int, Some(rr as int))
                            =~= seq![s.subrange(pos as int, pos + rr as int)]);
                        assert(out@.map_values(|b: Vec<String>| b@.map_values(|x: String| x@))
                            =~= pre_out.map_values(|b: Vec<String>| b@.map_values(|x: String| x@))
                                + seq![s.subrange(pos as int, pos + rr as int)]);
                        assert(out@.map_values(|b: Vec<String>| b@.map_values(|x: String| x@))
                            =~= batches_spec(s, 0, batch_size as int, rem0));
                    }
                    return out;
                } else {
                    let b = copy_range(arr, pos, end);
                    out.push(b);
                    remaining = Some(rr - blen as u32);
                    proof {
                        assert(out@.map_values(|b: Vec<String>| b@.map_values(|x: String| x@))
                            =~= pre_out.map_values(|b: Vec<String>| b@.map_values(|x: String| x@))
                                + seq![s.subrange(pos as int, end as int)]);
                    }
                    pos = end;
                }
            }
        }
    }
    proof {
        assert(batches_spec(s, pos as int, batch_size as int, match remaining {
            Some(rr) => Some(rr as int),
            None => None,
        }) =~= Seq::<Seq<Seq<char>>>::empty());
        assert(out@.map_values(|b: Vec<String>| b@.map_values(|x: String| x@))
            =~= out@.map_values(|b: Vec<String>| b@.map_values(|x: String| x@)) + Seq::<Seq<Seq<char>>>::empty());
    }
    out
}

// ---------------------------------------------------------------------------
// parse_page
// ---------------------------------------------------------------------------

/// The pagination window denoted by an index string `"start-end"`, if the
/// string has exactly one dash, both sides are digit strings that fit in a
/// `usize`, and the window is not inverted.
pub open spec fn page_spec(s: Seq<char>) -> Option<Page> {
    match s.index_of_first('-') {
        None => None,
        Some(p) => {
            let left = s.subrange(0, p);
            let right = s.subrange(p + 1, s.len() as int);
            if (forall|q: int| p < q < s.len() ==> s[q] != '-') && u64_digits(left) && u64_digits(
                right,
            ) && digits_val(left) <= usize::MAX && digits_val(right) <= usize::MAX && digits_val(
                left,
            ) <= digits_val(right) {
                Some(
                    Page {
                        start_idx: digits_val(left) as usize,
                        end_idx: digits_val(right) as usize,
                    },
                )
            } else {
                None
            }
        }
    }
}

/// Parse an optional `"start-end"` pagination index.
///
/// No index means no pagination; a malformed index (not exactly one dash,
/// a side that is not a digit string or does not fit, or an inverted
/// window) is rejected with `InvalidIndex`.
#[verifier::loop_isolation(false)]
pub fn parse_page(index: Option<&str>) -> (r: Result<Option<Page>, Error>)
    ensures
        index is None ==> r == Ok::<Option<Page>, Error>(None),
        index matches Some(s) ==> match page_spec(s@) {
            Some(page) => r == Ok::<Option<Page>, Error>(Some(page)),
            None => r == Err::<Option<Page>, Error>(Error::InvalidIndex),
        },
{
    let s = match index {
        None => {
            return Ok(None);
        }
        Some(s) => s,
    };
    let n = s.unicode_len();
    proof {
        s@.index_of_first_ensures('-');
    }
    let mut p: usize = 0;
    let mut found = false;
    while p < n && !found
        invariant
            n == s@.len(),
            p <= n,
            !found ==> forall|j: int| 0 <= j < p ==> s@[j] != '-',
            found ==> p < n && s@[p as int] == '-' && forall|j: int| 0 <= j < p ==> s@[j] != '-',
        decreases n - p, if found { 0int } else { 1int },
    {
        if s.get_char(p) == '-' {
            found = true;
        } else {
            p += 1;
        }
    }
    if !found {
        proof {
            assert(s@.index_of_first('-') is None);
        }
        return Err(Error::InvalidIndex);
    }
    proof {
        assert(s@.index_of_first('-') == Some(p as int));
    }
    // A second dash makes the index malformed.
    let mut q: usize = p + 1;
    while q < n
        invariant
            n == s@.len(),
            p < q <= n,
            forall|j: int| p < j < q ==> s@[j] != '-',
        decreases n - q,
    {
        if s.get_char(q) == '-' {
            return Err(Error::InvalidIndex);
        }
        q += 1;
    }
    let left = s.substring_char(0, p);
    let right = s.substring_char(p + 1, n);
    let start_val = match parse_u64(left) {
        Some(v) => v,
        None => {
            return Err(Error::InvalidIndex);
        }
    };
    let end_val = match parse_u64(right) {
        Some(v) => v,
        None => {
            return Err(Error::InvalidIndex);
        }
    };
    if start_val > usize::MAX as u64 || end_val > usize::MAX as u64 {
        return Err(Error::InvalidIndex);
    }
    if end_val < start_val {
        return Err(Error::InvalidIndex);
    }
    proof {
        lemma_digits_val_nonneg(left@);
        lemma_digits_val_nonneg(right@);
    }
    Ok(Some(Page { start_idx: start_val as usize, end_idx: end_val as usize }))
}

} // verus!
