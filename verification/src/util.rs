//! The key codec: deterministic, reversible encoding of composite catalog
//! keys from name parts, using the reserved `#` delimiter that validated
//! names may not contain.
use vstd::prelude::*;

verus! {

/// The parts of a composite key, joined by the `#` delimiter.
pub open spec fn spec_merged(parts: Seq<Seq<char>>) -> Seq<char>
    decreases parts.len(),
{
    if parts.len() == 0 {
        Seq::empty()
    } else if parts.len() == 1 {
        parts[0]
    } else {
        parts[0] + seq!['#'] + spec_merged(parts.skip(1))
    }
}

/// A composite key cut back into its parts at each `#` delimiter.
/// Splitting always yields at least one part; a key without the delimiter
/// yields exactly one.
pub open spec fn spec_split(s: Seq<char>) -> Seq<Seq<char>>
    decreases s.len(),
{
    if s.len() == 0 {
        seq![Seq::empty()]
    } else if s[0] == '#' {
        seq![Seq::<char>::empty()] + spec_split(s.skip(1))
    } else {
        let rest = spec_split(s.skip(1));
        seq![seq![s[0]] + rest[0]] + rest.skip(1)
    }
}

pub open spec fn has_hash(s: Seq<char>) -> bool {
    exists|i: int| 0 <= i < s.len() && s[i] == '#'
}

/// Splitting yields at least one part.
pub proof fn lemma_split_len(s: Seq<char>)
    ensures
        spec_split(s).len() >= 1,
    decreases s.len(),
{
    if s.len() == 0 {
    } else {
        lemma_split_len(s.skip(1));
    }
}

/// A delimiter-free key is a single part: splitting gives the key back whole.
pub proof fn lemma_split_no_hash(s: Seq<char>)
    requires
        !has_hash(s),
    ensures
        spec_split(s) == seq![s],
    decreases s.len(),
{
    if s.len() == 0 {
        assert(s =~= Seq::<char>::empty());
        assert(spec_split(s) =~= seq![s]);
    } else {
        assert(s[0] != '#');
        assert forall|i: int| 0 <= i < s.skip(1).len() implies s.skip(1)[i] != '#' by {
            assert(s.skip(1)[i] == s[i + 1]);
        }
        lemma_split_no_hash(s.skip(1));
        assert(seq![s[0]] + s.skip(1) =~= s);
        assert(spec_split(s.skip(1)).skip(1) =~= Seq::<Seq<char>>::empty());
        assert(spec_split(s) =~= seq![s]);
    }
}

/// Splitting cuts at the first delimiter: the part before it, then the split
/// of what follows it.
pub proof fn lemma_split_cut(s: Seq<char>, i: int)
    requires
        0 <= i < s.len(),
        s[i] == '#',
        forall|j: int| 0 <= j < i ==> s[j] != '#',
    ensures
        spec_split(s) == seq![s.take(i)] + spec_split(s.skip(i + 1)),
    decreases i,
{
    if i == 0 {
        assert(s.take(0) =~= Seq::<char>::empty());
        assert(s.skip(1) =~= s.skip(0int + 1));
        assert(spec_split(s) =~= seq![s.take(0)] + spec_split(s.skip(0int + 1)));
    } else {
        assert(s[0] != '#');
        let t = s.skip(1);
        assert(t[i - 1] == s[i]);
        assert forall|j: int| 0 <= j < i - 1 implies t[j] != '#' by {
            assert(t[j] == s[j + 1]);
        }
        lemma_split_cut(t, i - 1);
        lemma_split_len(t.skip(i));
        assert(t.skip(i) =~= s.skip(i + 1));
        assert(seq![s[0]] + t.take(i - 1) =~= s.take(i));
        assert((seq![t.take(i - 1)] + spec_split(t.skip(i))).skip(1) =~= spec_split(s.skip(i + 1)));
        assert(spec_split(s) =~= seq![s.take(i)] + spec_split(s.skip(i + 1)));
    }
}

/// The round trip the codec promises: merging a database name and a sub-name
/// and splitting the result yields the original pair, for any pair that does
/// not contain the reserved delimiter.
pub proof fn lemma_key_codec_round_trip(db: Seq<char>, sub: Seq<char>)
    requires
        !has_hash(db),
        !has_hash(sub),
    ensures
        spec_split(spec_merged(seq![db, sub])) == seq![db, sub],
{
    let parts = seq![db, sub];
    assert(parts.skip(1) =~= seq![sub]);
    assert(spec_merged(seq![sub]) == sub);
    let m = spec_merged(parts);
    assert(m == db + seq!['#'] + sub);
    let i = db.len() as int;
    assert(m[i] == '#');
    assert forall|j: int| 0 <= j < i implies m[j] != '#' by {
        assert(m[j] == db[j]);
    }
    lemma_split_cut(m, i);
    assert(m.take(i) =~= db);
    assert(m.skip(i + 1) =~= sub);
    lemma_split_no_hash(sub);
    assert(seq![m.take(i)] + spec_split(m.skip(i + 1)) =~= seq![db, sub]);
}

/// Merging exactly two parts puts the delimiter between them.
pub proof fn lemma_merged_pair(a: Seq<char>, b: Seq<char>)
    ensures
        spec_merged(seq![a, b]) == a + seq!['#'] + b,
{
    assert(seq![a, b].skip(1) =~= seq![b]);
    assert(spec_merged(seq![b]) == b);
}

/// Appending one more part extends the join by a delimiter and the part.
proof fn lemma_merged_push(parts: Seq<Seq<char>>, x: Seq<char>)
    requires
        parts.len() >= 1,
    ensures
        spec_merged(parts.push(x)) == spec_merged(parts) + seq!['#'] + x,
    decreases parts.len(),
{
    if parts.len() == 1 {
        assert(parts.push(x).skip(1) =~= seq![x]);
        assert(spec_merged(seq![x]) == x);
        assert(parts.push(x)[0] == parts[0]);
    } else {
        lemma_merged_push(parts.skip(1), x);
        assert(parts.push(x).skip(1) =~= parts.skip(1).push(x));
        assert(parts.push(x)[0] == parts[0]);
        assert((parts[0] + seq!['#'] + (spec_merged(parts.skip(1)) + seq!['#'] + x)) =~= (
        parts[0] + seq!['#'] + spec_merged(parts.skip(1))) + seq!['#'] + x);
    }
}

/// Builds a composite catalog key from name parts, joined by `#`.
/// Nothing to join yields nothing.
pub fn key_merger(keys: Vec<String>) -> (r: Option<String>)
    ensures
        match r {
            Some(s) => keys@.len() > 0 && s@ == spec_merged(keys.deep_view()),
            None => keys@.len() == 0,
        },
{
    if keys.len() == 0 {
        return None;
    }
    let ghost parts = keys.deep_view();
    let mut out: String = keys[0].clone();
    let mut i: usize = 1;
    proof {
        assert(parts.take(1) =~= seq![parts[0]]);
        assert(spec_merged(seq![parts[0]]) == parts[0]);
        assert(parts[0] == keys@[0]@);
    }
    while i < keys.len()
        invariant
            1 <= i <= keys@.len(),
            parts == keys.deep_view(),
            parts.len() == keys@.len(),
            forall|j: int| 0 <= j < keys@.len() ==> parts[j] == keys@[j]@,
            out@ == spec_merged(parts.take(i as int)),
        decreases keys@.len() - i,
    {
        out.append("#");
        out.append(keys[i].as_str());
        proof {
            reveal_strlit("#");
            assert("#"@ =~= seq!['#']);
            lemma_merged_push(parts.take(i as int), parts[i as int]);
            assert(parts.take(i as int).push(parts[i as int]) =~= parts.take(i + 1 as int));
        }
        i = i + 1;
    }
    proof {
        assert(parts.take(keys@.len() as int) =~= parts);
    }
    Some(out)
}

/// Cuts a composite key back into its parts at each `#`. A key without the
/// delimiter is not composite: the split reports nothing.
pub fn key_splitter(key: String) -> (r: Option<Vec<String>>)
    ensures
        match r {
            Some(v) => has_hash(key@) && v.deep_view() == spec_split(key@),
            None => !has_hash(key@),
        },
{
    let s = key.as_str();
    let n = s.unicode_len();
    let mut found = false;
    let mut i: usize = 0;
    while i < n
        invariant
            0 <= i <= n,
            n == s@.len(),
            s@ == key@,
            found == exists|j: int| 0 <= j < i && s@[j] == '#',
        decreases n - i,
    {
        if s.get_char(i) == '#' {
            found = true;
        }
        i = i + 1;
    }
    if !found {
        return None;
    }
    let mut parts: Vec<String> = Vec::new();
    let mut start: usize = 0;
    let mut j: usize = 0;
    proof {
        assert(s@.skip(0) =~= s@);
        assert(parts.deep_view() + spec_split(s@) =~= spec_split(s@));
    }
    while j < n
        invariant
            0 <= start <= j <= n,
            n == s@.len(),
            s@ == key@,
            forall|k: int| start <= k < j ==> s@[k] != '#',
            spec_split(key@) == parts.deep_view() + spec_split(s@.skip(start as int)),
        decreases n - j,
    {
        if s.get_char(j) == '#' {
            let part = s.substring_char(start, j);
            let owned: String = part.to_owned();
            let ghost old_dv = parts.deep_view();
            parts.push(owned);
            proof {
                let rem = s@.skip(start as int);
                let c = j - start;
                assert(rem[c] == '#');
                assert forall|k: int| 0 <= k < c implies rem[k] != '#' by {
                    assert(rem[k] == s@[start + k]);
                }
                lemma_split_cut(rem, c as int);
                assert(rem.take(c as int) =~= s@.subrange(start as int, j as int));
                assert(rem.skip(c + 1) =~= s@.skip(j + 1 as int));
                assert(parts.deep_view() =~= old_dv.push(s@.subrange(start as int, j as int)));
                assert(old_dv + (seq![s@.subrange(start as int, j as int)] + spec_split(
                    s@.skip(j + 1 as int),
                )) =~= parts.deep_view() + spec_split(s@.skip(j + 1 as int)));
            }
            start = j + 1;
        }
        j = j + 1;
    }
    let last = s.substring_char(start, n);
    let owned: String = last.to_owned();
    let ghost old_dv = parts.deep_view();
    parts.push(owned);
    proof {
        let rem = s@.skip(start as int);
        assert forall|k: int| 0 <= k < rem.len() implies rem[k] != '#' by {
            assert(rem[k] == s@[start + k]);
        }
        lemma_split_no_hash(rem);
        assert(rem =~= s@.subrange(start as int, n as int));
        assert(parts.deep_view() =~= old_dv.push(rem));
        assert(old_dv + seq![rem] =~= parts.deep_view());
    }
    Some(parts)
}

/// Extracts the sub-name from a two-part composite key: the part after the
/// delimiter. Keys that do not cut into exactly two parts carry no sub-name.
pub fn ksm_db(key: String) -> (r: Option<String>)
    ensures
        match r {
            Some(s) => has_hash(key@) && spec_split(key@).len() == 2 && s@ == spec_split(key@)[1],
            None => !has_hash(key@) || spec_split(key@).len() != 2,
        },
{
    let keys = key_splitter(key);
    if keys.is_none() {
        return None;
    }
    let res = keys.unwrap();
    if res.len() != 2 {
        return None;
    }
    let k = res[1].clone();
    Some(k)
}

/// The directory that holds the query log partition, below the log path.
pub fn query_log_cf_path(log_path: &str) -> (r: String)
    ensures
        r@ == log_path@ + "/query-log"@,
{
    let p: String = log_path.to_owned();
    p.concat("/query-log")
}

/// Character-for-character string equality, proved against the views.
pub fn str_eq(a: &str, b: &str) -> (r: bool)
    ensures
        r == (a@ == b@),
{
    let la = a.unicode_len();
    let lb = b.unicode_len();
    if la != lb {
        return false;
    }
    let mut i: usize = 0;
    while i < la
        invariant
            0 <= i <= la,
            la == a@.len(),
            la == b@.len(),
            forall|j: int| 0 <= j < i ==> a@[j] == b@[j],
        decreases la - i,
    {
        if a.get_char(i) != b.get_char(i) {
            return false;
        }
        i = i + 1;
    }
    proof {
        assert(a@ =~= b@);
    }
    true
}

/// Whether `needle` occurs in `hay` as a contiguous substring.
pub open spec fn spec_contains_sub(hay: Seq<char>, needle: Seq<char>) -> bool {
    exists|i: int|
        0 <= i <= hay.len() - needle.len() && #[trigger] hay.subrange(i, i + needle.len())
            == needle
}

/// Substring search, proved against `spec_contains_sub`.
pub fn str_contains(hay: &str, needle: &str) -> (r: bool)
    ensures
        r == spec_contains_sub(hay@, needle@),
{
    let hl = hay.unicode_len();
    let nl = needle.unicode_len();
    if nl > hl {
        return false;
    }
    if nl == 0 {
        proof {
            assert(hay@.subrange(0int, 0int + needle@.len() as int) =~= needle@);
        }
        return true;
    }
    let mut i: usize = 0;
    while i <= hl - nl
        invariant
            0 <= i <= hl - nl + 1,
            hl == hay@.len(),
            nl == needle@.len(),
            1 <= nl <= hl,
            forall|k: int| 0 <= k < i ==> #[trigger] hay@.subrange(k, k + needle@.len()) != needle@,
        decreases hl - nl + 1 - i,
    {
        let mut j: usize = 0;
        let mut matched = true;
        while j < nl
            invariant
                0 <= j <= nl,
                0 <= i <= hl - nl,
                hl == hay@.len(),
                nl == needle@.len(),
                matched ==> forall|k: int| 0 <= k < j ==> hay@[i + k] == #[trigger] needle@[k],
                !matched ==> exists|k: int| 0 <= k < nl && hay@[i + k] != #[trigger] needle@[k],
            decreases nl - j,
        {
            if hay.get_char(i + j) != needle.get_char(j) {
                matched = false;
                proof {
                    assert(hay@[i + j] != needle@[j as int]);
                }
                j = nl;
            } else {
                proof {
                    assert(hay@[i + j] == needle@[j as int]);
                }
                j = j + 1;
            }
        }
        if matched {
            proof {
                assert(hay@.subrange(i as int, i + needle@.len()) =~= needle@);
            }
            return true;
        }
        proof {
            assert(hay@.subrange(i as int, i + needle@.len()) != needle@) by {
                let w = choose|k: int| 0 <= k < nl && hay@[i + k] != #[trigger] needle@[k];
                assert(hay@.subrange(i as int, i + needle@.len())[w] == hay@[i + w]);
            }
        }
        i = i + 1;
    }
    false
}

/// Strict lexicographic order on character sequences: the order the storage
/// engine keeps its keys in.
pub open spec fn lex_lt(a: Seq<char>, b: Seq<char>) -> bool
    decreases a.len() + b.len(),
{
    if b.len() == 0 {
        false
    } else if a.len() == 0 {
        true
    } else if a[0] != b[0] {
        a[0] < b[0]
    } else {
        lex_lt(a.skip(1), b.skip(1))
    }
}

/// Nothing is below itself.
pub proof fn lemma_lex_irrefl(a: Seq<char>)
    ensures
        !lex_lt(a, a),
    decreases a.len(),
{
    if a.len() > 0 {
        lemma_lex_irrefl(a.skip(1));
    }
}

/// The order is transitive.
pub proof fn lemma_lex_trans(a: Seq<char>, b: Seq<char>, c: Seq<char>)
    requires
        lex_lt(a, b),
        lex_lt(b, c),
    ensures
        lex_lt(a, c),
    decreases a.len() + b.len() + c.len(),
{
    if a.len() == 0 {
    } else if a[0] == c[0] {
        if a[0] == b[0] {
            lemma_lex_trans(a.skip(1), b.skip(1), c.skip(1));
        }
    }
}

/// Two distinct sequences are ordered one way or the other.
pub proof fn lemma_lex_connex(a: Seq<char>, b: Seq<char>)
    requires
        a != b,
    ensures
        lex_lt(a, b) || lex_lt(b, a),
    decreases a.len() + b.len(),
{
    if a.len() == 0 && b.len() == 0 {
        assert(a =~= b);
    } else if a.len() > 0 && b.len() > 0 && a[0] == b[0] {
        if a.skip(1) == b.skip(1) {
            assert(a =~= seq![a[0]] + a.skip(1));
            assert(b =~= seq![b[0]] + b.skip(1));
        } else {
            lemma_lex_connex(a.skip(1), b.skip(1));
        }
    }
}

/// While two sequences agree on a prefix, their order is the order of what
/// follows it.
pub proof fn lemma_lex_skip_common(a: Seq<char>, b: Seq<char>, i: int)
    requires
        0 <= i <= a.len(),
        i <= b.len(),
        forall|j: int| 0 <= j < i ==> a[j] == b[j],
    ensures
        lex_lt(a, b) == lex_lt(a.skip(i), b.skip(i)),
    decreases i,
{
    if i > 0 {
        assert(a.len() > 0 && b.len() > 0 && a[0] == b[0]);
        let a1 = a.skip(1);
        let b1 = b.skip(1);
        assert forall|j: int| 0 <= j < i - 1 implies a1[j] == b1[j] by {
            assert(a1[j] == a[j + 1] && b1[j] == b[j + 1]);
        }
        lemma_lex_skip_common(a1, b1, i - 1);
        assert(a1.skip(i - 1) =~= a.skip(i));
        assert(b1.skip(i - 1) =~= b.skip(i));
    } else {
        assert(a.skip(0) =~= a);
        assert(b.skip(0) =~= b);
    }
}

/// Compares two strings in the storage key order.
pub fn str_lt(a: &str, b: &str) -> (r: bool)
    ensures
        r == lex_lt(a@, b@),
{
    let la = a.unicode_len();
    let lb = b.unicode_len();
    let mut i: usize = 0;
    while i < la && i < lb
        invariant
            0 <= i <= la,
            0 <= i <= lb,
            la == a@.len(),
            lb == b@.len(),
            forall|j: int| 0 <= j < i ==> a@[j] == b@[j],
        decreases la - i,
    {
        let ca = a.get_char(i);
        let cb = b.get_char(i);
        if ca != cb {
            proof {
                lemma_lex_skip_common(a@, b@, i as int);
                assert(a@.skip(i as int)[0] == a@[i as int]);
                assert(b@.skip(i as int)[0] == b@[i as int]);
            }
            return ca < cb;
        }
        i = i + 1;
    }
    proof {
        lemma_lex_skip_common(a@, b@, i as int);
    }
    if la < lb {
        proof {
            assert(b@.skip(i as int).len() > 0);
        }
        true
    } else {
        false
    }
}

/// Whether `p` starts `s`.
pub open spec fn is_prefix(p: Seq<char>, s: Seq<char>) -> bool {
    p.len() <= s.len() && s.subrange(0, p.len() as int) == p
}

/// Prefix test, proved against `is_prefix`.
pub fn str_has_prefix(s: &str, p: &str) -> (r: bool)
    ensures
        r == is_prefix(p@, s@),
{
    let ls = s.unicode_len();
    let lp = p.unicode_len();
    if lp > ls {
        return false;
    }
    let mut i: usize = 0;
    while i < lp
        invariant
            0 <= i <= lp,
            lp <= ls,
            ls == s@.len(),
            lp == p@.len(),
            forall|j: int| 0 <= j < i ==> s@[j] == p@[j],
        decreases lp - i,
    {
        if s.get_char(i) != p.get_char(i) {
            proof {
                assert(s@.subrange(0, p@.len() as int)[i as int] == s@[i as int]);
            }
            return false;
        }
        i = i + 1;
    }
    proof {
        assert(s@.subrange(0, p@.len() as int) =~= p@);
    }
    true
}

} // verus!
