//! Character-level text operations the rule semantics are defined over:
//! whitespace trimming, substring search, splitting on commas, joining,
//! padding, and decimal formatting.
use vstd::prelude::*;
use vstd::string::StrSliceExecFns;

verus! {

/// A whitespace character, following the Unicode `White_Space` property
/// (the set `str::trim` removes).
pub open spec fn is_space(c: char) -> bool {
    let u = c as u32;
    ||| u == 0x09
    ||| u == 0x0A
    ||| u == 0x0B
    ||| u == 0x0C
    ||| u == 0x0D
    ||| u == 0x20
    ||| u == 0x85
    ||| u == 0xA0
    ||| u == 0x1680
    ||| (0x2000 <= u && u <= 0x200A)
    ||| u == 0x2028
    ||| u == 0x2029
    ||| u == 0x202F
    ||| u == 0x205F
    ||| u == 0x3000
}

pub fn is_space_char(c: char) -> (r: bool)
    ensures
        r == is_space(c),
{
    let u = c as u32;
    u == 0x09 || u == 0x0A || u == 0x0B || u == 0x0C || u == 0x0D || u == 0x20 || u == 0x85
        || u == 0xA0 || u == 0x1680 || (0x2000 <= u && u <= 0x200A) || u == 0x2028 || u == 0x2029
        || u == 0x202F || u == 0x205F || u == 0x3000
}

/// The sequence with leading whitespace removed.
pub open spec fn trim_front(s: Seq<char>) -> Seq<char>
    decreases s.len(),
{
    if s.len() > 0 && is_space(s[0]) {
        trim_front(s.drop_first())
    } else {
        s
    }
}

/// The sequence with trailing whitespace removed.
pub open spec fn trim_back(s: Seq<char>) -> Seq<char>
    decreases s.len(),
{
    if s.len() > 0 && is_space(s.last()) {
        trim_back(s.drop_last())
    } else {
        s
    }
}

/// The sequence with both leading and trailing whitespace removed,
/// as `str::trim` produces.
pub open spec fn trimmed(s: Seq<char>) -> Seq<char> {
    trim_back(trim_front(s))
}

/// Whitespace trimming on both ends of a string slice.
pub fn trim_str<'a>(s: &'a str) -> (r: &'a str)
    ensures
        r@ == trimmed(s@),
{
    let len = s.unicode_len();
    proof {
        assert(s@.subrange(0, len as int) =~= s@);
    }
    let mut i: usize = 0;
    while i < len && is_space_char(s.get_char(i))
        invariant
            0 <= i <= len,
            len == s@.len(),
            trim_front(s@) == trim_front(s@.subrange(i as int, len as int)),
        decreases len - i,
    {
        proof {
            assert(s@.subrange(i as int, len as int).drop_first() =~= s@.subrange(
                i + 1,
                len as int,
            ));
        }
        i = i + 1;
    }
    proof {
        assert(trim_front(s@) == s@.subrange(i as int, len as int));
    }
    let mut j: usize = len;
    while j > i && is_space_char(s.get_char(j - 1))
        invariant
            i <= j <= len,
            len == s@.len(),
            trim_front(s@) == s@.subrange(i as int, len as int),
            trim_back(s@.subrange(i as int, j as int)) == trim_back(
                s@.subrange(i as int, len as int),
            ),
        decreases j,
    {
        proof {
            assert(s@.subrange(i as int, j as int).drop_last() =~= s@.subrange(
                i as int,
                j - 1,
            ));
        }
        j = j - 1;
    }
    let r = s.substring_char(i, j);
    proof {
        assert(trim_back(s@.subrange(i as int, j as int)) == s@.subrange(i as int, j as int));
    }
    r
}

/// `needle` occurs in `hay` starting at position `i`.
pub open spec fn matches_at(hay: Seq<char>, needle: Seq<char>, i: int) -> bool {
    0 <= i && i + needle.len() <= hay.len() && hay.subrange(i, i + needle.len()) == needle
}

/// `needle` occurs somewhere in `hay`, as `str::contains` decides it.
pub open spec fn has_substring(hay: Seq<char>, needle: Seq<char>) -> bool {
    exists|i: int| matches_at(hay, needle, i)
}

/// Whether `needle` occurs in `hay` starting at position `i`.
fn match_at(hay: &str, needle: &str, i: usize) -> (r: bool)
    requires
        i + needle@.len() <= hay@.len(),
    ensures
        r == matches_at(hay@, needle@, i as int),
{
    let hlen = hay.unicode_len();
    let nlen = needle.unicode_len();
    let mut k: usize = 0;
    while k < nlen
        invariant
            0 <= k <= nlen,
            nlen == needle@.len(),
            hlen == hay@.len(),
            i + nlen <= hlen,
            forall|m: int| 0 <= m < k ==> hay@[i + m] == needle@[m],
        decreases nlen - k,
    {
        if hay.get_char(i + k) != needle.get_char(k) {
            proof {
                if hay@.subrange(i as int, i + needle@.len()) == needle@ {
                    assert(hay@.subrange(i as int, i + needle@.len())[k as int] == needle@[
                        k as int
                    ]);
                }
            }
            return false;
        }
        k = k + 1;
    }
    proof {
        assert(hay@.subrange(i as int, i + needle@.len()) =~= needle@);
    }
    true
}

/// Substring search, as `str::contains` behaves: the empty needle is
/// found in every string.
pub fn str_contains(hay: &str, needle: &str) -> (r: bool)
    ensures
        r == has_substring(hay@, needle@),
{
    let hlen = hay.unicode_len();
    let nlen = needle.unicode_len();
    if nlen > hlen {
        proof {
            assert(forall|i: int| !matches_at(hay@, needle@, i));
        }
        return false;
    }
    if nlen == 0 {
        proof {
            assert(hay@.subrange(0, 0) =~= needle@);
            assert(matches_at(hay@, needle@, 0));
        }
        return true;
    }
    let last = hlen - nlen;
    let mut i: usize = 0;
    while i <= last
        invariant
            0 <= i <= last + 1,
            last == hlen - nlen,
            1 <= nlen <= hlen,
            hlen == hay@.len(),
            nlen == needle@.len(),
            forall|k: int| 0 <= k < i ==> !matches_at(hay@, needle@, k),
        decreases last + 1 - i,
    {
        if match_at(hay, needle, i) {
            return true;
        }
        i = i + 1;
    }
    proof {
        assert forall|k: int| !matches_at(hay@, needle@, k) by {
            if 0 <= k < i {
            } else if k > last {
                assert(k + needle@.len() > hay@.len());
            }
        }
    }
    false
}

/// Character-wise string equality.
pub fn str_eq(a: &str, b: &str) -> (r: bool)
    ensures
        r == (a@ == b@),
{
    let alen = a.unicode_len();
    let blen = b.unicode_len();
    if alen != blen {
        return false;
    }
    let mut i: usize = 0;
    while i < alen
        invariant
            0 <= i <= alen,
            alen == a@.len(),
            alen == b@.len(),
            forall|j: int| 0 <= j < i ==> a@[j] == b@[j],
        decreases alen - i,
    {
        if a.get_char(i) != b.get_char(i) {
            return false;
        }
        i = i + 1;
    }
    proof {
        assert(a@ =~= b@);
    }
    true
}

/// Whether some element of `list` has exactly the characters of `x`.
pub fn contains_string(list: &Vec<String>, x: &str) -> (r: bool)
    ensures
        r == list.deep_view().contains(x@),
{
    let n = list.len();
    let mut i: usize = 0;
    while i < n
        invariant
            0 <= i <= n,
            n == list.len(),
            forall|j: int| 0 <= j < i ==> list.deep_view()[j] != x@,
        decreases n - i,
    {
        if str_eq(list[i].as_str(), x) {
            assert(list.deep_view()[i as int] == x@);
            return true;
        }
        i = i + 1;
    }
    false
}

/// The pieces of `s` between commas, in order, as `str::split(',')`
/// produces them: an empty input yields one empty piece, and a comma
/// at either end yields an empty piece there.
pub open spec fn split_comma(s: Seq<char>) -> Seq<Seq<char>>
    decreases s.len(),
{
    if s.len() == 0 {
        seq![s]
    } else if s[0] == ',' {
        seq![Seq::<char>::empty()] + split_comma(s.drop_first())
    } else {
        let rest = split_comma(s.drop_first());
        seq![seq![s[0]] + rest[0]] + rest.drop_first()
    }
}

pub proof fn lemma_split_comma_nonempty(s: Seq<char>)
    ensures
        split_comma(s).len() >= 1,
    decreases s.len(),
{
    if s.len() > 0 {
        lemma_split_comma_nonempty(s.drop_first());
    }
}

/// Splitting peels off everything before the first comma as the first
/// piece, and splits the remainder on its own.
pub proof fn lemma_split_comma_peel(s: Seq<char>, k: int)
    requires
        0 <= k <= s.len(),
        forall|j: int| 0 <= j < k ==> s[j] != ',',
        k == s.len() || s[k] == ',',
    ensures
        k == s.len() ==> split_comma(s) == seq![s],
        k < s.len() ==> split_comma(s) == seq![s.subrange(0, k)] + split_comma(
            s.subrange(k + 1, s.len() as int),
        ),
    decreases s.len(),
{
    if s.len() == 0 {
    } else if k == 0 {
        if k < s.len() {
            assert(s[0] == ',');
            assert(s.subrange(0, 0) =~= Seq::<char>::empty());
            assert(s.subrange(1, s.len() as int) =~= s.drop_first());
            assert(seq![s.subrange(0, 0)] =~= seq![Seq::<char>::empty()]);
        }
    } else {
        let df = s.drop_first();
        assert forall|j: int| 0 <= j < k - 1 implies df[j] != ',' by {
            assert(df[j] == s[j + 1]);
        }
        if k < s.len() {
            assert(df[k - 1] == s[k as int]);
        }
        lemma_split_comma_peel(df, k - 1);
        let rest = split_comma(df);
        lemma_split_comma_nonempty(df);
        if k == s.len() {
            assert(rest == seq![df]);
            assert(rest[0] == df);
            assert(seq![s[0]] + df =~= s);
            assert(rest.drop_first() =~= Seq::<Seq<char>>::empty());
            assert(split_comma(s) =~= seq![s]);
        } else {
            let tail = split_comma(df.subrange(k, df.len() as int));
            assert(rest == seq![df.subrange(0, k - 1)] + tail);
            assert(rest[0] == df.subrange(0, k - 1));
            assert(seq![s[0]] + df.subrange(0, k - 1) =~= s.subrange(0, k));
            assert(df.subrange(k, df.len() as int) =~= s.subrange(k + 1, s.len() as int));
            assert(rest.drop_first() =~= tail);
            assert(split_comma(s) =~= seq![s.subrange(0, k)] + split_comma(
                s.subrange(k + 1, s.len() as int),
            ));
        }
    }
}

/// Splitting a string on commas, as `str::split(',')` does.
pub fn split_comma_str(s: &str) -> (r: Vec<String>)
    ensures
        r.deep_view() == split_comma(s@),
{
    let len = s.unicode_len();
    let mut parts: Vec<String> = Vec::new();
    let mut pos: usize = 0;
    proof {
        assert(s@.subrange(0, len as int) =~= s@);
        assert(parts.deep_view() =~= Seq::<Seq<char>>::empty());
    }
    loop
        invariant_except_break
            split_comma(s@) == parts.deep_view() + split_comma(
                s@.subrange(pos as int, len as int),
            ),
        invariant
            0 <= pos <= len,
            len == s@.len(),
        ensures
            parts.deep_view() == split_comma(s@),
        decreases len - pos,
    {
        let ghost sub = s@.subrange(pos as int, len as int);
        let ghost old_parts = parts.deep_view();
        let mut k: usize = pos;
        while k < len && s.get_char(k) != ','
            invariant
                pos <= k <= len,
                len == s@.len(),
                forall|j: int| pos <= j < k ==> s@[j] != ',',
            decreases len - k,
        {
            k = k + 1;
        }
        let tok = s.substring_char(pos, k).to_owned();
        parts.push(tok);
        proof {
            assert forall|j: int| 0 <= j < k - pos implies sub[j] != ',' by {
                assert(sub[j] == s@[pos + j]);
            }
            if k < len {
                assert(sub[k - pos] == s@[k as int]);
            }
            lemma_split_comma_peel(sub, k - pos);
            assert(sub.subrange(0, k - pos) =~= s@.subrange(pos as int, k as int));
            assert(parts.deep_view() =~= old_parts.push(tok@));
        }
        if k < len {
            proof {
                assert(sub.subrange(k - pos + 1, sub.len() as int) =~= s@.subrange(
                    k + 1,
                    len as int,
                ));
                assert(old_parts + (seq![tok@] + split_comma(s@.subrange(k + 1, len as int)))
                    =~= old_parts.push(tok@) + split_comma(s@.subrange(k + 1, len as int)));
            }
            pos = k + 1;
        } else {
            proof {
                assert(sub =~= tok@);
                assert(old_parts + seq![tok@] =~= old_parts.push(tok@));
            }
            break;
        }
    }
    parts
}

/// The pieces concatenated with `sep` between consecutive ones.
pub open spec fn join_with(parts: Seq<Seq<char>>, sep: Seq<char>) -> Seq<char>
    decreases parts.len(),
{
    if parts.len() == 0 {
        Seq::empty()
    } else if parts.len() == 1 {
        parts[0]
    } else {
        parts[0] + sep + join_with(parts.drop_first(), sep)
    }
}

/// Joining one more piece appends a separator and the piece.
pub proof fn lemma_join_push(parts: Seq<Seq<char>>, x: Seq<char>, sep: Seq<char>)
    ensures
        parts.len() == 0 ==> join_with(parts.push(x), sep) == x,
        parts.len() > 0 ==> join_with(parts.push(x), sep) == join_with(parts, sep) + sep + x,
    decreases parts.len(),
{
    if parts.len() == 0 {
        assert(join_with(parts.push(x), sep) == parts.push(x)[0]);
    } else if parts.len() == 1 {
        assert(parts.push(x).drop_first() =~= seq![x]);
        assert(join_with(seq![x], sep) == x);
    } else {
        assert(parts.push(x).drop_first() =~= parts.drop_first().push(x));
        lemma_join_push(parts.drop_first(), x, sep);
        let jdf = join_with(parts.drop_first(), sep);
        assert(parts[0] + sep + (jdf + sep + x) =~= parts[0] + sep + jdf + sep + x);
    }
}

/// Joining strings with a separator, as `[String]::join` does.
pub fn join_strings(parts: &Vec<String>, sep: &str) -> (r: String)
    ensures
        r@ == join_with(parts.deep_view(), sep@),
{
    let mut r = String::new();
    let n = parts.len();
    let mut i: usize = 0;
    proof {
        assert(parts.deep_view().take(0) =~= Seq::<Seq<char>>::empty());
    }
    while i < n
        invariant
            0 <= i <= n,
            n == parts.len(),
            r@ == join_with(parts.deep_view().take(i as int), sep@),
        decreases n - i,
    {
        let ghost p = parts.deep_view();
        if i > 0 {
            r.append(sep);
        }
        r.append(parts[i].as_str());
        proof {
            assert(p.take(i as int).push(p[i as int]) =~= p.take(i + 1));
            lemma_join_push(p.take(i as int), p[i as int], sep@);
            if i == 0 {
                assert(Seq::<char>::empty() + p[0] =~= p[0]);
            }
        }
        i = i + 1;
    }
    proof {
        assert(parts.deep_view().take(n as int) =~= parts.deep_view());
    }
    r
}

/// Filtering a one-element sequence keeps or drops that element.
pub proof fn lemma_filter_singleton<A>(x: A, pred: spec_fn(A) -> bool)
    ensures
        seq![x].filter(pred) == if pred(x) {
            seq![x]
        } else {
            Seq::<A>::empty()
        },
{
    reveal_with_fuel(Seq::filter, 2);
    assert(seq![x].drop_last() =~= Seq::<A>::empty());
    assert(Seq::<A>::empty().filter(pred) == Seq::<A>::empty());
    assert(seq![x].last() == x);
    if pred(x) {
        assert(Seq::<A>::empty().push(x) =~= seq![x]);
    }
}

/// Filtering keeps a sequence whole when every element satisfies the
/// predicate.
pub proof fn lemma_filter_all<A>(s: Seq<A>, pred: spec_fn(A) -> bool)
    requires
        forall|i: int| 0 <= i < s.len() ==> pred(#[trigger] s[i]),
    ensures
        s.filter(pred) == s,
    decreases s.len(),
{
    reveal(Seq::filter);
    if s.len() > 0 {
        assert forall|i: int| 0 <= i < s.drop_last().len() implies pred(#[trigger] s.drop_last()[i]) by {
            assert(s.drop_last()[i] == s[i]);
        }
        lemma_filter_all(s.drop_last(), pred);
        assert(s.filter(pred) =~= s);
    }
}

/// Filtering empties a sequence when no element satisfies the predicate.
pub proof fn lemma_filter_none<A>(s: Seq<A>, pred: spec_fn(A) -> bool)
    requires
        forall|i: int| 0 <= i < s.len() ==> !pred(#[trigger] s[i]),
    ensures
        s.filter(pred) == Seq::<A>::empty(),
    decreases s.len(),
{
    reveal(Seq::filter);
    if s.len() > 0 {
        assert forall|i: int| 0 <= i < s.drop_last().len() implies !pred(
            #[trigger] s.drop_last()[i],
        ) by {
            assert(s.drop_last()[i] == s[i]);
        }
        lemma_filter_none(s.drop_last(), pred);
    }
}

/// Every element of a filtered sequence is an element of the original.
pub proof fn lemma_filter_membership<A>(s: Seq<A>, pred: spec_fn(A) -> bool, i: int)
    requires
        0 <= i < s.filter(pred).len(),
    ensures
        s.contains(s.filter(pred)[i]),
    decreases s.len(),
{
    reveal(Seq::filter);
    if s.len() > 0 {
        let f = s.filter(pred);
        let fd = s.drop_last().filter(pred);
        if pred(s.last()) && i == fd.len() {
            assert(f[i] == s.last());
            assert(s[s.len() - 1] == s.last());
        } else {
            lemma_filter_membership(s.drop_last(), pred, i);
            let k = choose|k: int| 0 <= k < s.drop_last().len() && s.drop_last()[k] == fd[i];
            assert(s[k] == fd[i]);
        }
    }
}

/// Filtering a sequence without duplicate elements leaves no duplicates.
pub proof fn lemma_filter_no_duplicates<A>(s: Seq<A>, pred: spec_fn(A) -> bool)
    requires
        s.no_duplicates(),
    ensures
        s.filter(pred).no_duplicates(),
    decreases s.len(),
{
    reveal(Seq::filter);
    if s.len() > 0 {
        let dl = s.drop_last();
        assert forall|i: int, j: int| 0 <= i < j < dl.len() implies dl[i] != dl[j] by {
            assert(dl[i] == s[i]);
            assert(dl[j] == s[j]);
        }
        lemma_filter_no_duplicates(dl, pred);
        if pred(s.last()) {
            let fd = dl.filter(pred);
            assert forall|i: int| 0 <= i < fd.len() implies fd[i] != s.last() by {
                lemma_filter_membership(dl, pred, i);
                let k = choose|k: int| 0 <= k < dl.len() && dl[k] == fd[i];
                assert(s[k] == dl[k]);
                assert(s[k] != s[s.len() - 1]);
            }
        }
    }
}

/// A name wrapped in single quotes.
pub open spec fn quoted(s: Seq<char>) -> Seq<char> {
    "'"@ + s + "'"@
}

/// Names each wrapped in single quotes, joined with `", "`, as error
/// messages list them.
pub open spec fn quoted_list(names: Seq<Seq<char>>) -> Seq<char> {
    join_with(names.map_values(|n: Seq<char>| quoted(n)), ", "@)
}

/// Joins names into a quoted, comma-separated list.
pub fn quoted_join(names: &Vec<String>) -> (r: String)
    ensures
        r@ == quoted_list(names.deep_view()),
{
    let mut parts: Vec<String> = Vec::new();
    let n = names.len();
    let mut i: usize = 0;
    while i < n
        invariant
            0 <= i <= n,
            n == names.len(),
            parts.deep_view() =~= names.deep_view().take(i as int).map_values(
                |x: Seq<char>| quoted(x),
            ),
        decreases n - i,
    {
        let ghost old_parts = parts.deep_view();
        let mut q = "'".to_owned();
        q.append(names[i].as_str());
        q.append("'");
        parts.push(q);
        proof {
            assert(q@ == quoted(names.deep_view()[i as int]));
            assert(parts.deep_view() =~= old_parts.push(q@));
            assert(parts.deep_view() =~= names.deep_view().take(i + 1).map_values(
                |x: Seq<char>| quoted(x),
            ));
        }
        i = i + 1;
    }
    proof {
        assert(names.deep_view().take(n as int) =~= names.deep_view());
    }
    join_strings(&parts, ", ")
}

/// `n` copies of the character `c`.
pub open spec fn repeat_char(c: char, n: int) -> Seq<char>
    decreases n,
{
    if n <= 0 {
        Seq::empty()
    } else {
        repeat_char(c, n - 1).push(c)
    }
}

/// `n` copies of a one-character string, as `str::repeat` makes them.
pub fn repeat_of(unit: &str, n: usize) -> (r: String)
    requires
        unit@.len() == 1,
    ensures
        r@ == repeat_char(unit@[0], n as int),
{
    let mut r = String::new();
    let mut i: usize = 0;
    while i < n
        invariant
            0 <= i <= n,
            unit@.len() == 1,
            r@ == repeat_char(unit@[0], i as int),
        decreases n - i,
    {
        r.append(unit);
        proof {
            assert(r@ =~= repeat_char(unit@[0], i + 1));
        }
        i = i + 1;
    }
    r
}

/// `s` extended on the right with spaces to width `w` (unchanged when
/// already that wide), as the `{:<w$}` format padding behaves.
pub open spec fn pad_right(s: Seq<char>, w: int) -> Seq<char> {
    s + repeat_char(' ', w - s.len())
}

/// `s` extended on the left with spaces to width `w`, as `{:>w$}` behaves.
pub open spec fn pad_left(s: Seq<char>, w: int) -> Seq<char> {
    repeat_char(' ', w - s.len()) + s
}

pub fn pad_right_str(s: &str, w: usize) -> (r: String)
    ensures
        r@ == pad_right(s@, w as int),
{
    let mut r = s.to_owned();
    let len = s.unicode_len();
    if len < w {
        proof {
            reveal_strlit(" ");
        }
        let fill = repeat_of(" ", w - len);
        r.append(fill.as_str());
    } else {
        proof {
            assert(s@ + repeat_char(' ', w - s@.len()) =~= s@);
        }
    }
    r
}

pub fn pad_left_str(s: &str, w: usize) -> (r: String)
    ensures
        r@ == pad_left(s@, w as int),
{
    let len = s.unicode_len();
    if len < w {
        proof {
            reveal_strlit(" ");
        }
        let mut r = repeat_of(" ", w - len);
        r.append(s);
        r
    } else {
        proof {
            assert(repeat_char(' ', w - s@.len()) + s@ =~= s@);
        }
        s.to_owned()
    }
}

/// The character for one decimal digit.
pub open spec fn dec_digit(d: int) -> char {
    if d == 0 {
        '0'
    } else if d == 1 {
        '1'
    } else if d == 2 {
        '2'
    } else if d == 3 {
        '3'
    } else if d == 4 {
        '4'
    } else if d == 5 {
        '5'
    } else if d == 6 {
        '6'
    } else if d == 7 {
        '7'
    } else if d == 8 {
        '8'
    } else {
        '9'
    }
}

/// The decimal digits of `n`, most significant first, as integers are
/// usually written out.
pub open spec fn dec_nat(n: int) -> Seq<char>
    decreases n,
{
    if n < 10 {
        seq![dec_digit(n)]
    } else {
        dec_nat(n / 10).push(dec_digit(n % 10))
    }
}

fn dec_digit_str(d: u64) -> (r: &'static str)
    requires
        d < 10,
    ensures
        r@ == seq![dec_digit(d as int)],
{
    let s: &'static str = if d == 0 {
        "0"
    } else if d == 1 {
        "1"
    } else if d == 2 {
        "2"
    } else if d == 3 {
        "3"
    } else if d == 4 {
        "4"
    } else if d == 5 {
        "5"
    } else if d == 6 {
        "6"
    } else if d == 7 {
        "7"
    } else if d == 8 {
        "8"
    } else {
        "9"
    };
    proof {
        reveal_strlit("0");
        reveal_strlit("1");
        reveal_strlit("2");
        reveal_strlit("3");
        reveal_strlit("4");
        reveal_strlit("5");
        reveal_strlit("6");
        reveal_strlit("7");
        reveal_strlit("8");
        reveal_strlit("9");
        assert(s@ =~= seq![dec_digit(d as int)]);
    }
    s
}

/// A number written out in decimal, as the display formatting writes it.
pub fn u64_dec(n: u64) -> (r: String)
    ensures
        r@ == dec_nat(n as int),
    decreases n,
{
    if n < 10 {
        dec_digit_str(n).to_owned()
    } else {
        let mut r = u64_dec(n / 10);
        r.append(dec_digit_str(n % 10));
        proof {
            assert(r@ =~= dec_nat(n as int));
        }
        r
    }
}

} // verus!
