//! Byte-level text helpers behind the probes and actions: marker search in
//! configuration files, package-list filtering, repository-name extraction
//! and the reading of a yes/no answer.
//!
//! Everything here works on plain bytes handed in by the caller; nothing
//! reads a file or a stream itself.

use vstd::prelude::*;

verus! {

/// ASCII blank: space, horizontal tab, line feed or carriage return.
pub open spec fn is_blank(b: u8) -> bool {
    b == 32 || b == 9 || b == 10 || b == 13
}

/// The sequence with its leading blanks removed.
pub open spec fn trim_front(s: Seq<u8>) -> Seq<u8>
    decreases s.len(),
{
    if s.len() > 0 && is_blank(s[0]) {
        trim_front(s.drop_first())
    } else {
        s
    }
}

/// The sequence with its trailing blanks removed.
pub open spec fn trim_back(s: Seq<u8>) -> Seq<u8>
    decreases s.len(),
{
    if s.len() > 0 && is_blank(s[s.len() - 1]) {
        trim_back(s.drop_last())
    } else {
        s
    }
}

/// The sequence with blanks removed from both ends.
pub open spec fn trimmed(s: Seq<u8>) -> Seq<u8> {
    trim_back(trim_front(s))
}

proof fn lemma_trim_front_is_suffix(s: Seq<u8>, i: int)
    requires
        0 <= i <= s.len(),
        forall|k: int| 0 <= k < i ==> is_blank(#[trigger] s[k]),
        i < s.len() ==> !is_blank(s[i]),
    ensures
        trim_front(s) == s.subrange(i, s.len() as int),
    decreases i,
{
    if i == 0 {
        assert(s.subrange(0, s.len() as int) =~= s);
    } else {
        let t = s.drop_first();
        lemma_trim_front_is_suffix(t, i - 1);
        assert(t.subrange(i - 1, t.len() as int) =~= s.subrange(i, s.len() as int));
    }
}

proof fn lemma_trim_back_is_prefix(s: Seq<u8>, j: int)
    requires
        0 <= j <= s.len(),
        forall|k: int| j <= k < s.len() ==> is_blank(#[trigger] s[k]),
        j > 0 ==> !is_blank(s[j - 1]),
    ensures
        trim_back(s) == s.subrange(0, j),
    decreases s.len() - j,
{
    if j == s.len() {
        assert(s.subrange(0, j) =~= s);
    } else {
        let t = s.drop_last();
        lemma_trim_back_is_prefix(t, j);
        assert(t.subrange(0, j) =~= s.subrange(0, j));
    }
}

/// Copies `line` with the blanks removed from both ends.
pub fn trim_line(line: &Vec<u8>) -> (r: Vec<u8>)
    ensures
        r@ == trimmed(line@),
{
    let n = line.len();
    let mut start: usize = 0;
    while start < n && (line[start] == 32u8 || line[start] == 9u8 || line[start] == 10u8
        || line[start] == 13u8)
        invariant
            start <= n,
            n == line@.len(),
            forall|k: int| 0 <= k < start ==> is_blank(#[trigger] line@[k]),
        decreases n - start,
    {
        start = start + 1;
    }
    proof {
        lemma_trim_front_is_suffix(line@, start as int);
    }
    if start == n {
        proof {
            assert(trim_front(line@) =~= Seq::<u8>::empty());
            assert(trimmed(line@) =~= Seq::<u8>::empty());
        }
        return Vec::new();
    }
    let mut end: usize = n;
    while end > start && (line[end - 1] == 32u8 || line[end - 1] == 9u8 || line[end - 1] == 10u8
        || line[end - 1] == 13u8)
        invariant
            start <= end <= n,
            n == line@.len(),
            forall|k: int| end <= k < n ==> is_blank(#[trigger] line@[k]),
        decreases end,
    {
        end = end - 1;
    }
    // The scan stopped above `start`, whose byte is not blank, so `end`
    // still exceeds `start` and the byte before it is not blank.
    proof {
        let m = line@.subrange(start as int, n as int);
        lemma_trim_back_is_prefix(m, end - start);
        assert(m.subrange(0, end - start) =~= line@.subrange(start as int, end as int));
    }
    let mut out: Vec<u8> = Vec::new();
    let mut i: usize = start;
    while i < end
        invariant
            start <= i <= end <= n,
            n == line@.len(),
            out@ =~= line@.subrange(start as int, i as int),
        decreases end - i,
    {
        out.push(line[i]);
        i = i + 1;
    }
    proof {
        assert(out@ =~= trimmed(line@));
    }
    out
}

/// The marker stands in the haystack at offset `k`.
pub open spec fn marker_at(h: Seq<u8>, n: Seq<u8>, k: int) -> bool {
    0 <= k && k + n.len() <= h.len() && h.subrange(k, k + n.len() as int) == n
}

/// The marker stands somewhere in the haystack.
pub open spec fn has_marker(h: Seq<u8>, n: Seq<u8>) -> bool {
    exists|k: int| marker_at(h, n, k)
}

/// Does `content` contain `marker` as a contiguous run of bytes?  This is
/// the idempotence check behind a file-marker probe: a configuration block
/// already appended to a file is recognised by its marker line.
pub fn contains_marker(content: &Vec<u8>, marker: &Vec<u8>) -> (r: bool)
    ensures
        r == has_marker(content@, marker@),
{
    let hl = content.len();
    let nl = marker.len();
    if nl > hl {
        proof {
            assert(forall|k: int| !marker_at(content@, marker@, k)) by {
                assert forall|k: int| !marker_at(content@, marker@, k) by {
                    if 0 <= k && k + marker@.len() <= content@.len() {
                        assert(false);
                    }
                }
            }
        }
        return false;
    }
    let limit = hl - nl;
    let mut k: usize = 0;
    loop
        invariant
            k <= limit + 1,
            nl <= hl,
            limit == hl - nl,
            hl == content@.len(),
            nl == marker@.len(),
            forall|q: int| 0 <= q < k ==> !marker_at(content@, marker@, q),
        decreases limit + 1 - k,
    {
        if k > limit {
            proof {
                assert(forall|q: int| marker_at(content@, marker@, q) ==> 0 <= q <= limit);
            }
            return false;
        }
        let mut j: usize = 0;
        while j < nl && content[k + j] == marker[j]
            invariant
                k <= limit,
                limit == hl - nl,
                hl == content@.len(),
                nl == marker@.len(),
                j <= nl,
                forall|q: int| 0 <= q < j ==> content@[k + q] == marker@[q],
            decreases nl - j,
        {
            j = j + 1;
        }
        if j == nl {
            proof {
                assert(content@.subrange(k as int, k + nl as int) =~= marker@);
                assert(marker_at(content@, marker@, k as int));
            }
            return true;
        }
        proof {
            // The bytes differ at offset j, so the marker is not at k.
            assert(!marker_at(content@, marker@, k as int)) by {
                if marker_at(content@, marker@, k as int) {
                    let q = j as int;
                    assert(content@.subrange(k as int, k + nl as int)[q] == marker@[q]);
                }
            }
        }
        k = k + 1;
    }
}

/// A trimmed line worth keeping in a package list: not empty, not a
/// comment, and not among the excluded names.
pub open spec fn keeps(s: Seq<u8>, excl: Seq<Seq<u8>>) -> bool {
    s.len() > 0 && s[0] != 35 && !excl.contains(s)
}

/// The package names that survive filtering: each line trimmed, with blank
/// lines, `#` comments and excluded names dropped, order kept.
pub open spec fn kept_packages(lines: Seq<Seq<u8>>, excl: Seq<Seq<u8>>) -> Seq<Seq<u8>>
    decreases lines.len(),
{
    if lines.len() == 0 {
        Seq::empty()
    } else {
        let rest = kept_packages(lines.drop_last(), excl);
        let t = trimmed(lines.last());
        if keeps(t, excl) {
            rest.push(t)
        } else {
            rest
        }
    }
}

/// The byte sequences of a list of byte vectors.
pub open spec fn byte_lines(v: Seq<Vec<u8>>) -> Seq<Seq<u8>> {
    v.map_values(|x: Vec<u8>| x@)
}

/// Byte-for-byte equality of two vectors.
fn bytes_eq(a: &Vec<u8>, b: &Vec<u8>) -> (r: bool)
    ensures
        r == (a@ == b@),
{
    if a.len() != b.len() {
        return false;
    }
    let mut i: usize = 0;
    while i < a.len()
        invariant
            i <= a@.len(),
            a@.len() == b@.len(),
            forall|k: int| 0 <= k < i ==> a@[k] == b@[k],
        decreases a@.len() - i,
    {
        if a[i] != b[i] {
            return false;
        }
        i = i + 1;
    }
    proof {
        assert(a@ =~= b@);
    }
    true
}

/// Membership of `x` among the vectors of `set`.
fn vec_in(set: &Vec<Vec<u8>>, x: &Vec<u8>) -> (r: bool)
    ensures
        r == byte_lines(set@).contains(x@),
{
    let mut i: usize = 0;
    while i < set.len()
        invariant
            i <= set@.len(),
            forall|k: int| 0 <= k < i ==> byte_lines(set@)[k] != x@,
        decreases set@.len() - i,
    {
        if bytes_eq(&set[i], x) {
            assert(byte_lines(set@)[i as int] == x@);
            return true;
        }
        i = i + 1;
    }
    assert(forall|k: int| 0 <= k < byte_lines(set@).len() ==> byte_lines(set@)[k] != x@);
    false
}

/// Filters a package list, one line per entry: every line is trimmed, and
/// blank lines, `#` comments and the excluded names are dropped.  The order
/// of the surviving names is the order of their lines.
pub fn filter_packages(lines: &Vec<Vec<u8>>, excluded: &Vec<Vec<u8>>) -> (r: Vec<Vec<u8>>)
    ensures
        byte_lines(r@) == kept_packages(byte_lines(lines@), byte_lines(excluded@)),
{
    let ghost lv = byte_lines(lines@);
    let ghost ev = byte_lines(excluded@);
    let mut out: Vec<Vec<u8>> = Vec::new();
    let mut i: usize = 0;
    while i < lines.len()
        invariant
            i <= lv.len(),
            lv == byte_lines(lines@),
            ev == byte_lines(excluded@),
            lv.len() == lines@.len(),
            byte_lines(out@) == kept_packages(lv.take(i as int), ev),
        decreases lv.len() - i,
    {
        let ghost before = byte_lines(out@);
        let t = trim_line(&lines[i]);
        let keep = t.len() > 0 && t[0] != 35u8 && !vec_in(excluded, &t);
        if keep {
            out.push(t);
        }
        proof {
            let taken = lv.take(i + 1);
            assert(taken.drop_last() =~= lv.take(i as int));
            assert(taken.last() == lv[i as int]);
            if keep {
                assert(byte_lines(out@) =~= before.push(trimmed(lv[i as int])));
            }
            assert(byte_lines(out@) =~= kept_packages(lv.take(i + 1), ev));
        }
        i = i + 1;
    }
    proof {
        assert(lv.take(lv.len() as int) =~= lv);
    }
    out
}

/// The bytes after the last `/`, the whole sequence when there is none,
/// and nothing when the sequence ends in `/`.
pub open spec fn tail_after_slash(s: Seq<u8>) -> Seq<u8>
    decreases s.len(),
{
    if s.len() == 0 {
        Seq::empty()
    } else if s[s.len() - 1] == 47 {
        Seq::empty()
    } else {
        tail_after_slash(s.drop_last()).push(s.last())
    }
}

proof fn lemma_tail_is_suffix(s: Seq<u8>, i: int)
    requires
        0 <= i <= s.len(),
        forall|k: int| i <= k < s.len() ==> #[trigger] s[k] != 47,
        i > 0 ==> s[i - 1] == 47,
    ensures
        tail_after_slash(s) == s.subrange(i, s.len() as int),
    decreases s.len(),
{
    if i == s.len() {
        assert(s.subrange(i, s.len() as int) =~= Seq::<u8>::empty());
    } else {
        let t = s.drop_last();
        lemma_tail_is_suffix(t, i);
        assert(t.subrange(i, t.len() as int).push(s.last()) =~= s.subrange(
            i,
            s.len() as int,
        ));
    }
}

/// The directory name a clone of `url` lands in: the part after the last
/// `/` of the address, or the whole address when it has no `/`.  Cloning a
/// set of repositories probes this name under the target directory to skip
/// repositories already present.
pub fn repo_name(url: &Vec<u8>) -> (r: Vec<u8>)
    ensures
        r@ == tail_after_slash(url@),
{
    let n = url.len();
    let mut start: usize = n;
    while start > 0 && url[start - 1] != 47u8
        invariant
            start <= n,
            n == url@.len(),
            forall|k: int| start <= k < n ==> #[trigger] url@[k] != 47,
        decreases start,
    {
        start = start - 1;
    }
    proof {
        lemma_tail_is_suffix(url@, start as int);
    }
    let mut out: Vec<u8> = Vec::new();
    let mut i: usize = start;
    while i < n
        invariant
            start <= i <= n,
            n == url@.len(),
            out@ =~= url@.subrange(start as int, i as int),
        decreases n - i,
    {
        out.push(url[i]);
        i = i + 1;
    }
    proof {
        assert(out@ =~= tail_after_slash(url@));
    }
    out
}

/// ASCII lower-casing of one byte.
pub open spec fn to_lower(b: u8) -> u8 {
    if 65 <= b <= 90 {
        (b + 32) as u8
    } else {
        b
    }
}

/// The operator's answer, trimmed and lower-cased.
pub open spec fn folded_answer(s: Seq<u8>) -> Seq<u8> {
    trimmed(s).map_values(|b: u8| to_lower(b))
}

/// An answer that declines: `n` or `no`, in any case, with surrounding
/// blanks ignored.  Anything else consents.
pub open spec fn spec_declines(s: Seq<u8>) -> bool {
    folded_answer(s) == seq![110u8] || folded_answer(s) == seq![110u8, 111u8]
}

/// Does the operator's raw answer decline to continue?
pub fn declines(answer: &Vec<u8>) -> (r: bool)
    ensures
        r == spec_declines(answer@),
{
    let t = trim_line(answer);
    let ghost m = folded_answer(answer@);
    proof {
        assert(m.len() == t@.len());
    }
    let r = if t.len() == 1 {
        let b0 = if 65u8 <= t[0] && t[0] <= 90u8 {
            t[0] + 32
        } else {
            t[0]
        };
        b0 == 110u8
    } else if t.len() == 2 {
        let b0 = if 65u8 <= t[0] && t[0] <= 90u8 {
            t[0] + 32
        } else {
            t[0]
        };
        let b1 = if 65u8 <= t[1] && t[1] <= 90u8 {
            t[1] + 32
        } else {
            t[1]
        };
        b0 == 110u8 && b1 == 111u8
    } else {
        false
    };
    proof {
        assert(seq![110u8].len() == 1 && seq![110u8, 111u8].len() == 2);
        if t@.len() == 1 {
            assert(m =~= seq![to_lower(t@[0])]);
            if to_lower(t@[0]) == 110 {
                assert(m =~= seq![110u8]);
            } else {
                assert(m[0] != 110);
            }
            assert(m != seq![110u8, 111u8]);
        } else if t@.len() == 2 {
            assert(m =~= seq![to_lower(t@[0]), to_lower(t@[1])]);
            if to_lower(t@[0]) == 110 && to_lower(t@[1]) == 111 {
                assert(m =~= seq![110u8, 111u8]);
            } else {
                assert(m[0] != 110 || m[1] != 111);
            }
            assert(m != seq![110u8]);
        } else {
            assert(m != seq![110u8] && m != seq![110u8, 111u8]);
        }
    }
    r
}

} // verus!
