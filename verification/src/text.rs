use vstd::prelude::*;

verus! {

// ------------------------------------------------------------------
// Conversions between strings and character vectors
// ------------------------------------------------------------------

/// The characters of a string slice, in order.
pub fn chars_of(s: &str) -> (v: Vec<char>)
    ensures
        v@ == s@,
{
    let mut v: Vec<char> = Vec::new();
    for c in it: s.chars()
        invariant
            v@ == it.seq().take(it.index() as int),
    {
        v.push(c);
    }
    v
}

/// Builds an owned string out of a sequence of characters
/// (`FromIterator<&char> for String`).
#[verifier::external_body]
pub(crate) fn string_of(v: &[char]) -> (s: String)
    ensures
        s@ == v@,
{
    v.iter().collect()
}

/// Copies a string slice into an owned string.
pub fn owned(s: &str) -> (r: String)
    ensures
        r@ == s@,
{
    let v = chars_of(s);
    string_of(v.as_slice())
}

// ------------------------------------------------------------------
// Whitespace and trimming
// ------------------------------------------------------------------

/// The Unicode `White_Space` property, which is what `char::is_whitespace` tests.
pub open spec fn is_ws(c: char) -> bool {
    let u = c as u32;
    ||| u == 0x20
    ||| 0x09 <= u <= 0x0d
    ||| u == 0x85
    ||| u == 0xa0
    ||| u == 0x1680
    ||| 0x2000 <= u <= 0x200a
    ||| u == 0x2028
    ||| u == 0x2029
    ||| u == 0x202f
    ||| u == 0x205f
    ||| u == 0x3000
}

pub fn is_whitespace(c: char) -> (b: bool)
    ensures
        b == is_ws(c),
{
    let u = c as u32;
    u == 0x20 || (0x09 <= u && u <= 0x0d) || u == 0x85 || u == 0xa0 || u == 0x1680 || (0x2000
        <= u && u <= 0x200a) || u == 0x2028 || u == 0x2029 || u == 0x202f || u == 0x205f || u
        == 0x3000
}

/// `str::trim_start`: drops the leading whitespace.
pub open spec fn trim_start(s: Seq<char>) -> Seq<char>
    decreases s.len(),
{
    if s.len() > 0 && is_ws(s[0]) {
        trim_start(s.drop_first())
    } else {
        s
    }
}

/// `str::trim_end`: drops the trailing whitespace.
pub open spec fn trim_end(s: Seq<char>) -> Seq<char>
    decreases s.len(),
{
    if s.len() > 0 && is_ws(s.last()) {
        trim_end(s.drop_last())
    } else {
        s
    }
}

/// `str::trim`: drops leading and trailing whitespace.
pub open spec fn trim(s: Seq<char>) -> Seq<char> {
    trim_end(trim_start(s))
}

pub fn trim_chars(s: &[char]) -> (r: Vec<char>)
    ensures
        r@ == trim(s@),
{
    let n = s.len();
    let mut i: usize = 0;
    assert(s@.skip(0) =~= s@);
    while i < n && is_whitespace(s[i])
        invariant
            i <= n,
            n == s@.len(),
            trim_start(s@) == trim_start(s@.skip(i as int)),
        decreases n - i,
    {
        assert(s@.skip(i as int).drop_first() =~= s@.skip(i + 1));
        i = i + 1;
    }
    let ghost t = s@.skip(i as int);
    assert(trim_start(s@) == t) by {
        if i == n {
            assert(t =~= Seq::<char>::empty());
        }
    }
    let mut j: usize = n;
    while j > i && is_whitespace(s[j - 1])
        invariant
            i <= j <= n,
            n == s@.len(),
            t == s@.skip(i as int),
            trim_end(t) == trim_end(s@.subrange(i as int, j as int)),
        decreases j,
    {
        assert(s@.subrange(i as int, j as int).drop_last() =~= s@.subrange(i as int, j - 1));
        j = j - 1;
    }
    assert(trim_end(s@.subrange(i as int, j as int)) == s@.subrange(i as int, j as int)) by {
        if i == j {
            assert(s@.subrange(i as int, j as int) =~= Seq::<char>::empty());
        }
    }
    let mut r: Vec<char> = Vec::new();
    let mut k: usize = i;
    while k < j
        invariant
            i <= k <= j <= n,
            n == s@.len(),
            r@ == s@.subrange(i as int, k as int),
        decreases j - k,
    {
        r.push(s[k]);
        assert(r@ =~= s@.subrange(i as int, k + 1));
        k = k + 1;
    }
    r
}

/// `str::trim` on a string slice.
pub fn trim_str(s: &str) -> (r: Vec<char>)
    ensures
        r@ == trim(s@),
{
    let v = chars_of(s);
    trim_chars(v.as_slice())
}

} // verus!

verus! {

// ------------------------------------------------------------------
// Equality, prefixes and searching
// ------------------------------------------------------------------

pub fn seq_eq(a: &[char], b: &[char]) -> (r: bool)
    ensures
        r == (a@ == b@),
{
    if a.len() != b.len() {
        return false;
    }
    let n = a.len();
    let mut i: usize = 0;
    while i < n
        invariant
            i <= n,
            n == a@.len(),
            n == b@.len(),
            forall|k: int| 0 <= k < i ==> a@[k] == b@[k],
        decreases n - i,
    {
        if a[i] != b[i] {
            return false;
        }
        i = i + 1;
    }
    assert(a@ =~= b@);
    true
}

/// Equality of two string slices.
pub fn str_eq(a: &str, b: &str) -> (r: bool)
    ensures
        r == (a@ == b@),
{
    let va = chars_of(a);
    let vb = chars_of(b);
    seq_eq(va.as_slice(), vb.as_slice())
}

pub open spec fn starts_with(s: Seq<char>, p: Seq<char>) -> bool {
    p.len() <= s.len() && s.take(p.len() as int) == p
}

/// Whether `p` occurs in `s` at position `i`.
pub fn matches_at(s: &[char], p: &[char], i: usize) -> (r: bool)
    requires
        i <= s@.len(),
    ensures
        r == starts_with(s@.skip(i as int), p@),
{
    let n = s.len();
    let m = p.len();
    if m > n - i {
        return false;
    }
    let mut k: usize = 0;
    while k < m
        invariant
            k <= m,
            i + m <= n,
            n == s@.len(),
            m == p@.len(),
            forall|t: int| 0 <= t < k ==> s@[i + t] == p@[t],
        decreases m - k,
    {
        if s[i + k] != p[k] {
            assert(s@.skip(i as int).take(m as int)[k as int] == s@[i + k]);
            return false;
        }
        k = k + 1;
    }
    assert(s@.skip(i as int).take(m as int) =~= p@);
    true
}

/// Index of the first occurrence of `p` in `s`.
pub open spec fn find(s: Seq<char>, p: Seq<char>) -> Option<int>
    decreases s.len(),
{
    if starts_with(s, p) {
        Some(0)
    } else if s.len() == 0 {
        None
    } else {
        match find(s.drop_first(), p) {
            Some(i) => Some(i + 1),
            None => None,
        }
    }
}

pub proof fn lemma_find_some(s: Seq<char>, p: Seq<char>)
    ensures
        find(s, p) is Some ==> {
            &&& 0 <= find(s, p)->0
            &&& find(s, p)->0 + p.len() <= s.len()
            &&& starts_with(s.skip(find(s, p)->0), p)
            &&& forall|j: int| 0 <= j < find(s, p)->0 ==> !starts_with(#[trigger] s.skip(j), p)
        },
        find(s, p) is None ==> forall|j: int| 0 <= j <= s.len() ==> !starts_with(
            #[trigger] s.skip(j),
            p,
        ),
    decreases s.len(),
{
    assert(s.skip(0) =~= s);
    if !starts_with(s, p) && s.len() > 0 {
        lemma_find_some(s.drop_first(), p);
        assert forall|j: int| 1 <= j <= s.len() implies s.skip(j) =~= s.drop_first().skip(j - 1) by {}
        assert forall|j: int| 0 <= j <= s.len() && j != 0 implies #[trigger] s.skip(j)
            =~= s.drop_first().skip(j - 1) by {}
    }
}

pub proof fn lemma_find_first(s: Seq<char>, p: Seq<char>, k: int)
    requires
        0 <= k <= s.len(),
        starts_with(s.skip(k), p),
        forall|j: int| 0 <= j < k ==> !starts_with(#[trigger] s.skip(j), p),
    ensures
        find(s, p) == Some(k),
    decreases k,
{
    assert(s.skip(0) =~= s);
    if k > 0 {
        assert forall|j: int| 0 <= j < k - 1 implies !starts_with(#[trigger] s.drop_first().skip(j), p) by {
            assert(s.drop_first().skip(j) =~= s.skip(j + 1));
        }
        assert(s.drop_first().skip(k - 1) =~= s.skip(k));
        lemma_find_first(s.drop_first(), p, k - 1);
    }
}

pub proof fn lemma_find_none(s: Seq<char>, p: Seq<char>)
    requires
        forall|j: int| 0 <= j <= s.len() ==> !starts_with(#[trigger] s.skip(j), p),
    ensures
        find(s, p) is None,
    decreases s.len(),
{
    assert(s.skip(0) =~= s);
    if s.len() > 0 {
        assert forall|j: int| 0 <= j <= s.len() - 1 implies !starts_with(#[trigger] s.drop_first().skip(j), p) by {
            assert(s.drop_first().skip(j) =~= s.skip(j + 1));
        }
        lemma_find_none(s.drop_first(), p);
    }
}

/// First occurrence of `p` in `s` at or after `start`.
pub fn find_from(s: &[char], p: &[char], start: usize) -> (r: Option<usize>)
    requires
        start <= s@.len(),
    ensures
        match r {
            Some(i) => start <= i && find(s@.skip(start as int), p@) == Some(i - start),
            None => find(s@.skip(start as int), p@) is None,
        },
{
    let n = s.len();
    let ghost t = s@.skip(start as int);
    let mut i: usize = start;
    while i < n
        invariant
            start <= i,
            i <= n,
            n == s@.len(),
            t == s@.skip(start as int),
            forall|j: int| 0 <= j < i - start ==> !starts_with(#[trigger] t.skip(j), p@),
        decreases n - i,
    {
        let m = matches_at(s, p, i);
        assert(t.skip(i - start) =~= s@.skip(i as int));
        if m {
            proof {
                lemma_find_first(t, p@, i - start);
            }
            return Some(i);
        }
        i = i + 1;
    }
    let m = matches_at(s, p, n);
    assert(t.skip(n - start) =~= s@.skip(n as int));
    if m {
        proof {
            lemma_find_first(t, p@, n - start);
        }
        return Some(n);
    }
    proof {
        lemma_find_none(t, p@);
    }
    None
}

pub fn slice_vec(s: &[char], from: usize, to: usize) -> (r: Vec<char>)
    requires
        from <= to <= s@.len(),
    ensures
        r@ == s@.subrange(from as int, to as int),
{
    let mut r: Vec<char> = Vec::new();
    let mut k: usize = from;
    while k < to
        invariant
            from <= k <= to <= s@.len(),
            r@ == s@.subrange(from as int, k as int),
        decreases to - k,
    {
        r.push(s[k]);
        assert(r@ =~= s@.subrange(from as int, k + 1));
        k = k + 1;
    }
    r
}

/// `str::split_once` with a string pattern.
pub open spec fn split_once(s: Seq<char>, p: Seq<char>) -> Option<(Seq<char>, Seq<char>)> {
    match find(s, p) {
        Some(i) => Some((s.take(i), s.skip(i + p.len()))),
        None => None,
    }
}

pub fn split_once_chars(s: &[char], p: &[char]) -> (r: Option<(Vec<char>, Vec<char>)>)
    ensures
        match r {
            Some((a, b)) => split_once(s@, p@) == Some((a@, b@)),
            None => split_once(s@, p@) is None,
        },
{
    assert(s@.skip(0) =~= s@);
    match find_from(s, p, 0) {
        Some(i) => {
            assert(find(s@, p@) == Some(i as int));
            proof {
                lemma_find_some(s@, p@);
            }
            assert(i + p@.len() <= s@.len());
            let n = s.len();
            let a = slice_vec(s, 0, i);
            let b = slice_vec(s, i + p.len(), n);
            assert(a@ =~= s@.take(i as int));
            assert(b@ =~= s@.skip(i + p@.len()));
            Some((a, b))
        },
        None => None,
    }
}

/// What `str::split` gives for the empty pattern, which matches at every
/// character boundary: an empty piece, each character alone, an empty piece.
pub open spec fn split_empty(s: Seq<char>) -> Seq<Seq<char>> {
    seq![Seq::<char>::empty()] + s.map_values(|c: char| seq![c]) + seq![Seq::<char>::empty()]
}

/// `str::split` with a string pattern.
pub open spec fn split(s: Seq<char>, p: Seq<char>) -> Seq<Seq<char>>
    decreases s.len(),
{
    if p.len() == 0 {
        split_empty(s)
    } else {
        match find(s, p) {
            Some(i) => {
                proof {
                    lemma_find_some(s, p);
                }
                seq![s.take(i)] + split(s.skip(i + p.len()), p)
            },
            None => seq![s],
        }
    }
}

/// The views of a sequence of character vectors.
pub open spec fn views(v: Seq<Vec<char>>) -> Seq<Seq<char>> {
    Seq::new(v.len(), |i: int| v[i]@)
}

pub fn split_chars(s: &[char], p: &[char]) -> (r: Vec<Vec<char>>)
    ensures
        views(r@) == split(s@, p@),
{
    if p.len() == 0 {
        let mut parts: Vec<Vec<char>> = Vec::new();
        parts.push(Vec::new());
        let mut k: usize = 0;
        assert(views(parts@) =~= seq![Seq::<char>::empty()] + s@.take(0).map_values(|c: char| seq![c]));
        while k < s.len()
            invariant
                k <= s@.len(),
                views(parts@) == seq![Seq::<char>::empty()] + s@.take(k as int).map_values(|c: char| seq![c]),
            decreases s@.len() - k,
        {
            let ghost before = views(parts@);
            let mut v: Vec<char> = Vec::new();
            v.push(s[k]);
            parts.push(v);
            assert(views(parts@) =~= before.push(seq![s@[k as int]]));
            assert(s@.take(k + 1).map_values(|c: char| seq![c]) =~= s@.take(k as int).map_values(
                |c: char| seq![c],
            ).push(seq![s@[k as int]]));
            k = k + 1;
        }
        let ghost before = views(parts@);
        parts.push(Vec::new());
        assert(views(parts@) =~= before.push(Seq::<char>::empty()));
        assert(s@.take(k as int) =~= s@);
        assert(views(parts@) =~= split(s@, p@));
        return parts;
    }
    let n = s.len();
    let mut parts: Vec<Vec<char>> = Vec::new();
    let mut start: usize = 0;
    assert(s@.skip(0) =~= s@);
    loop
        invariant
            start <= n,
            n == s@.len(),
            p@.len() > 0,
            split(s@, p@) == views(parts@) + split(s@.skip(start as int), p@),
        decreases n - start,
    {
        let ghost t = s@.skip(start as int);
        match find_from(s, p, start) {
            Some(i) => {
                proof {
                    lemma_find_some(t, p@);
                }
                let piece = slice_vec(s, start, i);
                let ghost old_parts = views(parts@);
                parts.push(piece);
                assert(piece@ =~= t.take(i - start));
                assert(t.skip(i - start + p@.len()) =~= s@.skip(i + p@.len()));
                assert(views(parts@) =~= old_parts + seq![piece@]);
                start = i + p.len();
            },
            None => {
                let piece = slice_vec(s, start, n);
                let ghost old_parts = views(parts@);
                parts.push(piece);
                assert(piece@ =~= t);
                assert(views(parts@) =~= old_parts + seq![piece@]);
                return parts;
            },
        }
    }
}

/// `str::split` on string slices, collected into owned strings.
pub fn split_str(s: &str, p: &str) -> (r: Vec<String>)
    ensures
        r.deep_view() == split(s@, p@),
{
    let vs = chars_of(s);
    let vp = chars_of(p);
    let parts = split_chars(vs.as_slice(), vp.as_slice());
    strings_of(&parts)
}

/// Converts character vectors into owned strings.
pub fn strings_of(parts: &Vec<Vec<char>>) -> (r: Vec<String>)
    ensures
        r.deep_view() == views(parts@),
{
    let mut r: Vec<String> = Vec::new();
    let mut k: usize = 0;
    while k < parts.len()
        invariant
            k <= parts@.len(),
            r@.len() == k,
            forall|j: int| 0 <= j < k ==> #[trigger] r@[j]@ == parts@[j]@,
        decreases parts@.len() - k,
    {
        let piece = string_of(parts[k].as_slice());
        r.push(piece);
        k = k + 1;
    }
    assert(r.deep_view() =~= views(parts@)) by {
        assert forall|j: int| 0 <= j < r@.len() implies r.deep_view()[j] == views(parts@)[j] by {
            assert(r@[j]@ == parts@[j]@);
        }
    }
    r
}

/// `[String]::join`.
pub open spec fn join(parts: Seq<Seq<char>>, sep: Seq<char>) -> Seq<char>
    decreases parts.len(),
{
    if parts.len() == 0 {
        seq![]
    } else if parts.len() == 1 {
        parts[0]
    } else {
        join(parts.drop_last(), sep) + sep + parts.last()
    }
}

pub fn join_strs(parts: &[String], sep: &str) -> (r: String)
    ensures
        r@ == join(parts.deep_view(), sep@),
{
    let vsep = chars_of(sep);
    let mut acc: Vec<char> = Vec::new();
    let mut k: usize = 0;
    assert(parts.deep_view().take(0) =~= Seq::<Seq<char>>::empty());
    while k < parts.len()
        invariant
            k <= parts@.len(),
            vsep@ == sep@,
            acc@ == join(parts.deep_view().take(k as int), sep@),
        decreases parts@.len() - k,
    {
        let piece = chars_of(parts[k].as_str());
        let ghost old_acc = acc@;
        if k > 0 {
            let mut t: usize = 0;
            while t < vsep.len()
                invariant
                    t <= vsep@.len(),
                    acc@ == old_acc + vsep@.take(t as int),
                decreases vsep@.len() - t,
            {
                acc.push(vsep[t]);
                assert(acc@ =~= old_acc + vsep@.take(t + 1));
                t = t + 1;
            }
            assert(vsep@.take(vsep@.len() as int) =~= vsep@);
        }
        let ghost mid = acc@;
        let mut t: usize = 0;
        while t < piece.len()
            invariant
                t <= piece@.len(),
                acc@ == mid + piece@.take(t as int),
            decreases piece@.len() - t,
        {
            acc.push(piece[t]);
            assert(acc@ =~= mid + piece@.take(t + 1));
            t = t + 1;
        }
        assert(piece@.take(piece@.len() as int) =~= piece@);
        let ghost pk = parts.deep_view().take(k + 1);
        assert(pk.drop_last() =~= parts.deep_view().take(k as int));
        assert(pk.last() == parts@[k as int]@);
        if k == 0 {
            assert(acc@ =~= join(pk, sep@));
        } else {
            assert(acc@ =~= join(pk, sep@));
        }
        k = k + 1;
    }
    assert(parts.deep_view().take(parts@.len() as int) =~= parts.deep_view());
    string_of(acc.as_slice())
}

} // verus!

verus! {

// ------------------------------------------------------------------
// Small building blocks
// ------------------------------------------------------------------

pub fn concat(a: &[char], b: &[char]) -> (r: Vec<char>)
    ensures
        r@ == a@ + b@,
{
    let mut r: Vec<char> = Vec::new();
    let mut k: usize = 0;
    while k < a.len()
        invariant
            k <= a@.len(),
            r@ == a@.take(k as int),
        decreases a@.len() - k,
    {
        r.push(a[k]);
        assert(r@ =~= a@.take(k + 1));
        k = k + 1;
    }
    let mut t: usize = 0;
    assert(a@.take(a@.len() as int) =~= a@);
    while t < b.len()
        invariant
            t <= b@.len(),
            r@ == a@ + b@.take(t as int),
        decreases b@.len() - t,
    {
        r.push(b[t]);
        assert(r@ =~= a@ + b@.take(t + 1));
        t = t + 1;
    }
    assert(b@.take(b@.len() as int) =~= b@);
    r
}

/// `char::to_ascii_uppercase`.
pub open spec fn upper_char(c: char) -> char {
    if 'a' <= c <= 'z' {
        ((c as u32) - 32) as char
    } else {
        c
    }
}

/// `str::to_ascii_uppercase`.
pub open spec fn ascii_upper(s: Seq<char>) -> Seq<char> {
    Seq::new(s.len(), |i: int| upper_char(s[i]))
}

pub fn ascii_upper_chars(s: &[char]) -> (r: Vec<char>)
    ensures
        r@ == ascii_upper(s@),
{
    let mut r: Vec<char> = Vec::new();
    let mut k: usize = 0;
    while k < s.len()
        invariant
            k <= s@.len(),
            r@ == ascii_upper(s@.take(k as int)),
        decreases s@.len() - k,
    {
        let c = s[k];
        let u = if 'a' <= c && c <= 'z' {
            ((c as u32) - 32) as u8 as char
        } else {
            c
        };
        assert(u == upper_char(c)) by {
            if 'a' <= c && c <= 'z' {
                assert((((c as u32) - 32) as u8 as char) == (((c as u32) - 32) as char));
            }
        }
        r.push(u);
        assert(r@ =~= ascii_upper(s@.take(k + 1)));
        k = k + 1;
    }
    assert(s@.take(s@.len() as int) =~= s@);
    r
}

/// `str::strip_prefix`.
pub open spec fn strip_prefix(s: Seq<char>, p: Seq<char>) -> Option<Seq<char>> {
    if starts_with(s, p) {
        Some(s.skip(p.len() as int))
    } else {
        None
    }
}

pub fn strip_prefix_chars(s: &[char], p: &[char]) -> (r: Option<Vec<char>>)
    ensures
        match r {
            Some(v) => strip_prefix(s@, p@) == Some(v@),
            None => strip_prefix(s@, p@) is None,
        },
{
    assert(s@.skip(0) =~= s@);
    if matches_at(s, p, 0) {
        let n = s.len();
        let v = slice_vec(s, p.len(), n);
        assert(v@ =~= s@.skip(p@.len() as int));
        Some(v)
    } else {
        None
    }
}

/// `s.split_once(p).unwrap_or((s, ""))`.
pub open spec fn split_once_or_all(s: Seq<char>, p: Seq<char>) -> (Seq<char>, Seq<char>) {
    match split_once(s, p) {
        Some(pair) => pair,
        None => (s, seq![]),
    }
}

pub fn split_once_or_all_chars(s: &[char], p: &[char]) -> (r: (Vec<char>, Vec<char>))
    ensures
        (r.0@, r.1@) == split_once_or_all(s@, p@),
{
    match split_once_chars(s, p) {
        Some(pair) => pair,
        None => {
            let n = s.len();
            let a = slice_vec(s, 0, n);
            assert(a@ =~= s@);
            (a, Vec::new())
        },
    }
}

/// Whether `p` occurs anywhere in `s`.
pub open spec fn contains(s: Seq<char>, p: Seq<char>) -> bool {
    find(s, p) is Some
}

pub fn contains_chars(s: &[char], p: &[char]) -> (r: bool)
    ensures
        r == contains(s@, p@),
{
    assert(s@.skip(0) =~= s@);
    find_from(s, p, 0).is_some()
}

pub proof fn lemma_find_single_absent(s: Seq<char>, c: char)
    requires
        forall|i: int| 0 <= i < s.len() ==> s[i] != c,
    ensures
        find(s, seq![c]) is None,
{
    assert forall|j: int| 0 <= j <= s.len() implies !starts_with(#[trigger] s.skip(j), seq![c]) by {
        if j < s.len() {
            assert(s.skip(j).take(1)[0] == s[j]);
        }
    }
    lemma_find_none(s, seq![c]);
}

pub proof fn lemma_find_single_at(s: Seq<char>, c: char, k: int)
    requires
        0 <= k < s.len(),
        s[k] == c,
        forall|i: int| 0 <= i < k ==> s[i] != c,
    ensures
        find(s, seq![c]) == Some(k),
{
    assert(s.skip(k).take(1) =~= seq![c]);
    assert forall|j: int| 0 <= j < k implies !starts_with(#[trigger] s.skip(j), seq![c]) by {
        assert(s.skip(j).take(1)[0] == s[j]);
    }
    lemma_find_first(s, seq![c], k);
}

/// Joining a non-empty part in front of others.
pub proof fn lemma_join_front(a: Seq<char>, rest: Seq<Seq<char>>, sep: Seq<char>)
    requires
        rest.len() > 0,
    ensures
        join(seq![a] + rest, sep) == a + sep + join(rest, sep),
    decreases rest.len(),
{
    let all = seq![a] + rest;
    if rest.len() == 1 {
        assert(all.drop_last() =~= seq![a]);
        assert(all.last() == rest[0]);
        assert(join(seq![a], sep) == a);
        assert(join(rest, sep) == rest[0]);
    } else {
        assert(all.drop_last() =~= seq![a] + rest.drop_last());
        lemma_join_front(a, rest.drop_last(), sep);
        assert(all.last() == rest.last());
        assert(join(all, sep) == join(all.drop_last(), sep) + sep + all.last());
        assert(join(rest, sep) == join(rest.drop_last(), sep) + sep + rest.last());
        assert(join(all, sep) =~= a + sep + join(rest, sep));
    }
}

/// Splitting what was joined with a one-character separator that occurs
/// in none of the parts gives the parts back.
pub proof fn lemma_split_join_single(parts: Seq<Seq<char>>, c: char)
    requires
        parts.len() > 0,
        forall|i: int, j: int| 0 <= i < parts.len() && 0 <= j < parts[i].len() ==> parts[i][j] != c,
    ensures
        split(join(parts, seq![c]), seq![c]) == parts,
    decreases parts.len(),
{
    let sep = seq![c];
    if parts.len() == 1 {
        assert(forall|j: int| 0 <= j < parts[0].len() ==> parts[0][j] != c);
        lemma_find_single_absent(parts[0], c);
        assert(split(parts[0], sep) == seq![parts[0]]);
        assert(seq![parts[0]] =~= parts);
    } else {
        let a = parts[0];
        let rest = parts.drop_first();
        assert(parts =~= seq![a] + rest);
        lemma_join_front(a, rest, sep);
        let s = a + sep + join(rest, sep);
        assert(forall|j: int| 0 <= j < a.len() ==> a[j] != c);
        assert(s[a.len() as int] == c);
        assert forall|i: int| 0 <= i < a.len() implies s[i] != c by {
            assert(s[i] == a[i]);
        }
        lemma_find_single_at(s, c, a.len() as int);
        assert(s.take(a.len() as int) =~= a);
        assert(s.skip(a.len() as int + 1) =~= join(rest, sep));
        assert forall|i: int, j: int| 0 <= i < rest.len() && 0 <= j < rest[i].len() implies rest[i][j]
            != c by {
            assert(rest[i] == parts[i + 1]);
        }
        lemma_split_join_single(rest, c);
        assert(split(s, sep) == seq![a] + split(join(rest, sep), sep));
        assert(seq![a] + rest =~= parts);
    }
}

/// Splitting what was joined with a separator whose first character occurs
/// in none of the parts gives the parts back.
pub proof fn lemma_split_join_sep(parts: Seq<Seq<char>>, sep: Seq<char>)
    requires
        parts.len() > 0,
        sep.len() > 0,
        forall|i: int, j: int| 0 <= i < parts.len() && 0 <= j < parts[i].len() ==> parts[i][j] != sep[0],
    ensures
        split(join(parts, sep), sep) == parts,
    decreases parts.len(),
{
    let a = parts[0];
    assert(forall|j: int| 0 <= j < a.len() ==> a[j] != sep[0]);
    if parts.len() == 1 {
        assert forall|j: int| 0 <= j <= a.len() implies !starts_with(#[trigger] a.skip(j), sep) by {
            if j < a.len() {
                assert(a.skip(j)[0] == a[j]);
                if starts_with(a.skip(j), sep) {
                    assert(a.skip(j).take(sep.len() as int)[0] == a.skip(j)[0]);
                }
            }
        }
        lemma_find_none(a, sep);
        assert(seq![a] =~= parts);
    } else {
        let rest = parts.drop_first();
        assert(parts =~= seq![a] + rest);
        lemma_join_front(a, rest, sep);
        let s = a + sep + join(rest, sep);
        assert(s.skip(a.len() as int).take(sep.len() as int) =~= sep);
        assert forall|j: int| 0 <= j < a.len() implies !starts_with(#[trigger] s.skip(j), sep) by {
            assert(s.skip(j)[0] == a[j]);
            if starts_with(s.skip(j), sep) {
                assert(s.skip(j).take(sep.len() as int)[0] == s.skip(j)[0]);
            }
        }
        lemma_find_first(s, sep, a.len() as int);
        assert(s.take(a.len() as int) =~= a);
        assert(s.skip((a.len() + sep.len()) as int) =~= join(rest, sep));
        assert forall|i: int, j: int| 0 <= i < rest.len() && 0 <= j < rest[i].len() implies rest[i][j]
            != sep[0] by {
            assert(rest[i] == parts[i + 1]);
        }
        lemma_split_join_sep(rest, sep);
        assert(split(s, sep) == seq![a] + split(join(rest, sep), sep));
    }
}

/// Joining what was split gives the text back.
pub proof fn lemma_join_split(s: Seq<char>, p: Seq<char>)
    requires
        p.len() > 0,
    ensures
        join(split(s, p), p) == s,
        split(s, p).len() > 0,
    decreases s.len(),
{
    match find(s, p) {
        Some(i) => {
            lemma_find_some(s, p);
            let rest = s.skip(i + p.len());
            lemma_join_split(rest, p);
            lemma_join_front(s.take(i), split(rest, p), p);
            assert(s.skip(i).take(p.len() as int) == p);
            assert(s.take(i) + p + rest =~= s);
        },
        None => {},
    }
}

} // verus!

verus! {

/// A result whose error is a message, taken by its view.
pub open spec fn rview<T: View>(r: Result<T, String>) -> Result<T::V, Seq<char>> {
    match r {
        Ok(t) => Ok(t@),
        Err(e) => Err(e@),
    }
}

/// `format!("`{}`", s)`.
pub open spec fn quoted(s: Seq<char>) -> Seq<char> {
    "`"@ + s + "`"@
}

/// How serde names the variants it expected.
pub open spec fn one_of(names: Seq<Seq<char>>) -> Seq<char> {
    if names.len() == 0 {
        "there are no variants"@
    } else if names.len() == 1 {
        quoted(names[0])
    } else if names.len() == 2 {
        quoted(names[0]) + " or "@ + quoted(names[1])
    } else {
        "one of "@ + join(Seq::new(names.len(), |i: int| quoted(names[i])), ", "@)
    }
}

/// The message serde gives for a string naming no variant of an enum.
pub open spec fn unknown_variant(v: Seq<char>, names: Seq<Seq<char>>) -> Seq<char> {
    "unknown variant "@ + quoted(v) + ", expected "@ + one_of(names)
}

pub fn quoted_chars(s: &[char]) -> (r: Vec<char>)
    ensures
        r@ == quoted(s@),
{
    let q = chars_of("`");
    let a = concat(q.as_slice(), s);
    concat(a.as_slice(), q.as_slice())
}

fn join_chars(parts: &Vec<Vec<char>>, sep: &[char]) -> (r: Vec<char>)
    ensures
        r@ == join(views(parts@), sep@),
{
    let mut acc: Vec<char> = Vec::new();
    let mut k: usize = 0;
    assert(views(parts@).take(0) =~= Seq::<Seq<char>>::empty());
    while k < parts.len()
        invariant
            k <= parts@.len(),
            acc@ == join(views(parts@).take(k as int), sep@),
        decreases parts@.len() - k,
    {
        let ghost pk = views(parts@).take(k + 1);
        assert(pk.drop_last() =~= views(parts@).take(k as int));
        assert(pk.last() == parts@[k as int]@);
        if k > 0 {
            let a = concat(acc.as_slice(), sep);
            acc = concat(a.as_slice(), parts[k].as_slice());
        } else {
            acc = concat(acc.as_slice(), parts[k].as_slice());
            assert(acc@ =~= parts@[0]@);
        }
        k = k + 1;
    }
    assert(views(parts@).take(parts@.len() as int) =~= views(parts@));
    acc
}

/// The message serde gives for an unknown variant.
pub fn unknown_variant_message(v: &[char], names: &Vec<&str>) -> (r: String)
    ensures
        r@ == unknown_variant(v@, names@.map_values(|n: &str| n@)),
{
    let ghost ns = names@.map_values(|n: &str| n@);
    let one: Vec<char> = if names.len() == 0 {
        chars_of("there are no variants")
    } else if names.len() == 1 {
        let n0 = chars_of(names[0]);
        quoted_chars(n0.as_slice())
    } else if names.len() == 2 {
        let n0 = chars_of(names[0]);
        let n1 = chars_of(names[1]);
        let a = quoted_chars(n0.as_slice());
        let b = quoted_chars(n1.as_slice());
        let or = chars_of(" or ");
        let ab = concat(a.as_slice(), or.as_slice());
        concat(ab.as_slice(), b.as_slice())
    } else {
        let mut qs: Vec<Vec<char>> = Vec::new();
        let mut k: usize = 0;
        while k < names.len()
            invariant
                k <= names@.len(),
                ns == names@.map_values(|n: &str| n@),
                qs@.len() == k,
                forall|j: int| 0 <= j < k ==> #[trigger] qs@[j]@ == quoted(ns[j]),
            decreases names@.len() - k,
        {
            let nk = chars_of(names[k]);
            qs.push(quoted_chars(nk.as_slice()));
            k = k + 1;
        }
        let sep = chars_of(", ");
        let body = join_chars(&qs, sep.as_slice());
        assert(views(qs@) =~= Seq::new(ns.len(), |i: int| quoted(ns[i])));
        let pre = chars_of("one of ");
        concat(pre.as_slice(), body.as_slice())
    };
    assert(one@ == one_of(ns));
    let p1 = chars_of("unknown variant ");
    let vq = quoted_chars(v);
    let p2 = chars_of(", expected ");
    let a = concat(p1.as_slice(), vq.as_slice());
    let b = concat(a.as_slice(), p2.as_slice());
    let c = concat(b.as_slice(), one.as_slice());
    string_of(c.as_slice())
}

} // verus!

verus! {

pub proof fn lemma_trim_end_concat(a: Seq<char>, b: Seq<char>)
    requires
        a.len() > 0,
        !is_ws(a.last()),
    ensures
        trim_end(a + b) == a + trim_end(b),
    decreases b.len(),
{
    if b.len() == 0 {
        assert(a + b =~= a);
        assert(a + Seq::<char>::empty() =~= a);
    } else if is_ws(b.last()) {
        assert((a + b).last() == b.last());
        assert((a + b).drop_last() =~= a + b.drop_last());
        lemma_trim_end_concat(a, b.drop_last());
    } else {
        assert((a + b).last() == b.last());
    }
}

/// Trimming text that starts and ends its first part with non-whitespace.
pub proof fn lemma_trim_concat(a: Seq<char>, b: Seq<char>)
    requires
        a.len() > 0,
        !is_ws(a[0]),
        !is_ws(a.last()),
    ensures
        trim(a + b) == a + trim_end(b),
{
    assert((a + b)[0] == a[0]);
    assert(trim_start(a + b) == a + b);
    lemma_trim_end_concat(a, b);
}

/// Text that starts with a non-whitespace character keeps it when trimmed.
pub proof fn lemma_trim_first(x: Seq<char>)
    requires
        x.len() > 0,
        !is_ws(x[0]),
    ensures
        trim(x).len() > 0,
        trim(x)[0] == x[0],
{
    assert(trim_start(x) == x);
    let a = x.take(1);
    assert(x =~= a + x.skip(1));
    lemma_trim_end_concat(a, x.skip(1));
}

pub proof fn lemma_trim_end_keeps(x: Seq<char>)
    requires
        x.len() > 0,
        !is_ws(x.last()),
    ensures
        trim_end(x) == x,
{
}

pub proof fn lemma_trim_keeps(x: Seq<char>)
    requires
        x.len() > 0,
        !is_ws(x[0]),
        !is_ws(x.last()),
    ensures
        trim(x) == x,
{
    lemma_trim_concat(x, Seq::<char>::empty());
    assert(x + Seq::<char>::empty() =~= x);
}

/// Splitting at the first occurrence of a character that the first part lacks.
pub proof fn lemma_split_once_at(a: Seq<char>, c: char, rest: Seq<char>)
    requires
        forall|i: int| 0 <= i < a.len() ==> a[i] != c,
    ensures
        split_once(a + seq![c] + rest, seq![c]) == Some((a, rest)),
        split_once_or_all(a + seq![c] + rest, seq![c]) == (a, rest),
{
    let s = a + seq![c] + rest;
    assert forall|i: int| 0 <= i < a.len() implies s[i] != c by {
        assert(s[i] == a[i]);
    }
    lemma_find_single_at(s, c, a.len() as int);
    assert(s.take(a.len() as int) =~= a);
    assert(s.skip(a.len() as int + 1) =~= rest);
}

} // verus!

verus! {

// ------------------------------------------------------------------
// Ordering of strings (`Ord for str`: byte order, which for UTF-8 is the
// order of the code points)
// ------------------------------------------------------------------

pub open spec fn str_lt(a: Seq<char>, b: Seq<char>) -> bool
    decreases a.len(),
{
    if a.len() == 0 {
        b.len() > 0
    } else if b.len() == 0 {
        false
    } else if a[0] != b[0] {
        a[0] < b[0]
    } else {
        str_lt(a.drop_first(), b.drop_first())
    }
}

pub open spec fn sorted_strs(s: Seq<Seq<char>>) -> bool {
    forall|i: int, j: int| 0 <= i < j < s.len() ==> !str_lt(#[trigger] s[j], #[trigger] s[i])
}

pub proof fn lemma_str_lt_trans(a: Seq<char>, b: Seq<char>, c: Seq<char>)
    requires
        str_lt(a, b),
        str_lt(b, c),
    ensures
        str_lt(a, c),
    decreases a.len(),
{
    if a.len() > 0 && b.len() > 0 && c.len() > 0 && a[0] == b[0] && b[0] == c[0] {
        lemma_str_lt_trans(a.drop_first(), b.drop_first(), c.drop_first());
    }
}

pub proof fn lemma_str_lt_total(a: Seq<char>, b: Seq<char>)
    ensures
        str_lt(a, b) || str_lt(b, a) || a == b,
        !(str_lt(a, b) && str_lt(b, a)),
    decreases a.len(),
{
    if a.len() > 0 && b.len() > 0 {
        if a[0] == b[0] {
            lemma_str_lt_total(a.drop_first(), b.drop_first());
            if a.drop_first() == b.drop_first() {
                assert(a =~= seq![a[0]] + a.drop_first());
                assert(b =~= seq![b[0]] + b.drop_first());
            }
        }
    } else if a.len() == 0 && b.len() == 0 {
        assert(a =~= b);
    }
}

pub fn str_lt_exec(a: &str, b: &str) -> (r: bool)
    ensures
        r == str_lt(a@, b@),
{
    let va = chars_of(a);
    let vb = chars_of(b);
    let mut i: usize = 0;
    assert(va@.skip(0) =~= va@);
    assert(vb@.skip(0) =~= vb@);
    loop
        invariant
            i <= va@.len(),
            i <= vb@.len(),
            str_lt(a@, b@) == str_lt(va@.skip(i as int), vb@.skip(i as int)),
            va@ == a@,
            vb@ == b@,
        decreases va@.len() - i,
    {
        let ghost sa = va@.skip(i as int);
        let ghost sb = vb@.skip(i as int);
        if i == va.len() {
            return i < vb.len();
        }
        if i == vb.len() {
            return false;
        }
        assert(sa[0] == va@[i as int]);
        assert(sb[0] == vb@[i as int]);
        if va[i] != vb[i] {
            return va[i] < vb[i];
        }
        assert(sa.drop_first() =~= va@.skip(i + 1));
        assert(sb.drop_first() =~= vb@.skip(i + 1));
        i = i + 1;
    }
}

/// Sorts strings in ascending order (`slice::sort` on strings).
pub fn sort_strings(v: &Vec<String>) -> (r: Vec<String>)
    ensures
        r.deep_view().to_multiset() == v.deep_view().to_multiset(),
        sorted_strs(r.deep_view()),
{
    broadcast use vstd::seq_lib::group_to_multiset_ensures;

    let mut r: Vec<String> = Vec::new();
    let mut i: usize = 0;
    assert(v.deep_view().take(0) =~= Seq::<Seq<char>>::empty());
    assert(r.deep_view() =~= Seq::<Seq<char>>::empty());
    while i < v.len()
        invariant
            i <= v@.len(),
            r.deep_view().to_multiset() == v.deep_view().take(i as int).to_multiset(),
            sorted_strs(r.deep_view()),
        decreases v@.len() - i,
    {
        let x = v[i].clone();
        let mut p: usize = 0;
        while p < r.len() && !str_lt_exec(x.as_str(), r[p].as_str())
            invariant
                i < v@.len(),
                p <= r@.len(),
                x@ == v@[i as int]@,
                forall|q: int| 0 <= q < p ==> !str_lt(x@, #[trigger] r.deep_view()[q]),
            decreases r@.len() - p,
        {
            p = p + 1;
        }
        let ghost before = r.deep_view();
        r.insert(p, x);
        assert(r.deep_view() =~= before.insert(p as int, x@));
        proof {
            assert(v.deep_view()[i as int] == x@);
            assert(v.deep_view().take(i + 1) =~= v.deep_view().take(i as int).push(x@));
            vstd::seq_lib::to_multiset_insert(before, p as int, x@);
            vstd::seq_lib::to_multiset_build(v.deep_view().take(i as int), x@);
            assert(r.deep_view().to_multiset() == before.to_multiset().insert(x@));
            assert(v.deep_view().take(i + 1).to_multiset() == v.deep_view().take(i as int).to_multiset().insert(x@));
            assert forall|a: int, b: int| 0 <= a < b < r.deep_view().len() implies !str_lt(
                #[trigger] r.deep_view()[b],
                #[trigger] r.deep_view()[a],
            ) by {
                let s = r.deep_view();
                if a < p && b == p {
                    assert(s[a] == before[a]);
                    assert(s[b] == x@);
                    assert(!str_lt(x@, before[a]));
                } else if a == p && b > p {
                    assert(s[a] == x@);
                    assert(s[b] == before[b - 1]);
                    assert(str_lt(x@, before[p as int]));
                    if str_lt(before[b - 1], x@) {
                        lemma_str_lt_trans(before[b - 1], x@, before[p as int]);
                        if b - 1 > p {
                            assert(!str_lt(before[b - 1], before[p as int]));
                        } else {
                            lemma_str_lt_total(x@, before[p as int]);
                        }
                    }
                } else if a < p && b > p {
                    assert(s[a] == before[a]);
                    assert(s[b] == before[b - 1]);
                } else if b < p {
                    assert(s[a] == before[a]);
                    assert(s[b] == before[b]);
                } else {
                    assert(s[a] == before[a - 1]);
                    assert(s[b] == before[b - 1]);
                }
            }
        }
        i = i + 1;
    }
    assert(v.deep_view().take(v@.len() as int) =~= v.deep_view());
    r
}

} // verus!

verus! {

/// Two sorted arrangements of the same strings are the same.
pub proof fn lemma_sorted_unique(a: Seq<Seq<char>>, b: Seq<Seq<char>>)
    requires
        sorted_strs(a),
        sorted_strs(b),
        a.to_multiset() == b.to_multiset(),
    ensures
        a == b,
    decreases a.len(),
{
    vstd::seq_lib::to_multiset_len(a);
    vstd::seq_lib::to_multiset_len(b);
    if a.len() == 0 {
        assert(a =~= b);
    } else {
        let x = a[0];
        let y = b[0];
        vstd::seq_lib::to_multiset_contains(a, x);
        vstd::seq_lib::to_multiset_contains(b, x);
        vstd::seq_lib::to_multiset_contains(a, y);
        vstd::seq_lib::to_multiset_contains(b, y);
        assert(a.contains(x));
        assert(b.contains(y));
        let k = choose|k: int| 0 <= k < b.len() && b[k] == x;
        let m = choose|m: int| 0 <= m < a.len() && a[m] == y;
        if k > 0 {
            assert(!str_lt(b[k], b[0]));
        }
        if m > 0 {
            assert(!str_lt(a[m], a[0]));
        }
        lemma_str_lt_total(x, y);
        assert(x == y);
        vstd::seq_lib::to_multiset_remove(a, 0);
        vstd::seq_lib::to_multiset_remove(b, 0);
        assert(a.remove(0) =~= a.drop_first());
        assert(b.remove(0) =~= b.drop_first());
        assert forall|i: int, j: int| 0 <= i < j < a.drop_first().len() implies !str_lt(
            #[trigger] a.drop_first()[j],
            #[trigger] a.drop_first()[i],
        ) by {
            assert(a.drop_first()[j] == a[j + 1]);
            assert(a.drop_first()[i] == a[i + 1]);
        }
        assert forall|i: int, j: int| 0 <= i < j < b.drop_first().len() implies !str_lt(
            #[trigger] b.drop_first()[j],
            #[trigger] b.drop_first()[i],
        ) by {
            assert(b.drop_first()[j] == b[j + 1]);
            assert(b.drop_first()[i] == b[i + 1]);
        }
        lemma_sorted_unique(a.drop_first(), b.drop_first());
        assert(a =~= seq![x] + a.drop_first());
        assert(b =~= seq![y] + b.drop_first());
    }
}

/// The strings in ascending order.
pub open spec fn sorted_of(s: Seq<Seq<char>>) -> Seq<Seq<char>> {
    choose|r: Seq<Seq<char>>| r.to_multiset() == s.to_multiset() && sorted_strs(r)
}

/// Sorts strings in ascending order.
pub fn sorted_strings(v: &Vec<String>) -> (r: Vec<String>)
    ensures
        r.deep_view() == sorted_of(v.deep_view()),
{
    let r = sort_strings(v);
    proof {
        let c = sorted_of(v.deep_view());
        assert(r.deep_view().to_multiset() == v.deep_view().to_multiset() && sorted_strs(
            r.deep_view(),
        ));
        lemma_sorted_unique(c, r.deep_view());
    }
    r
}

/// Every character of a joined text is one of the parts' or the
/// separator's.
pub proof fn lemma_join_chars(parts: Seq<Seq<char>>, sep: Seq<char>, ok: spec_fn(char) -> bool)
    requires
        forall|i: int, j: int| 0 <= i < parts.len() && 0 <= j < parts[i].len() ==> ok(#[trigger] parts[i][j]),
        forall|j: int| 0 <= j < sep.len() ==> ok(#[trigger] sep[j]),
    ensures
        forall|k: int| 0 <= k < join(parts, sep).len() ==> ok(#[trigger] join(parts, sep)[k]),
    decreases parts.len(),
{
    if parts.len() > 1 {
        let front = parts.drop_last();
        assert forall|i: int, j: int| 0 <= i < front.len() && 0 <= j < front[i].len() implies ok(
            #[trigger] front[i][j],
        ) by {
            assert(front[i] == parts[i]);
        }
        lemma_join_chars(front, sep, ok);
        let a = join(front, sep);
        let l = parts.last();
        assert(join(parts, sep) == a + sep + l);
        assert forall|k: int| 0 <= k < join(parts, sep).len() implies ok(#[trigger] join(parts, sep)[k]) by {
            if k < a.len() {
                assert(join(parts, sep)[k] == a[k]);
            } else if k < a.len() + sep.len() {
                assert(join(parts, sep)[k] == sep[k - a.len()]);
            } else {
                assert(join(parts, sep)[k] == l[k - a.len() - sep.len()]);
                assert(l == parts[parts.len() - 1]);
            }
        }
    } else if parts.len() == 1 {
        assert(join(parts, sep) == parts[0]);
        assert forall|k: int| 0 <= k < join(parts, sep).len() implies ok(#[trigger] join(parts, sep)[k]) by {
            assert(join(parts, sep)[k] == parts[0][k]);
        }
    }
}

/// A joined text begins with the first part, when that part is not empty.
pub proof fn lemma_join_first(parts: Seq<Seq<char>>, sep: Seq<char>)
    requires
        parts.len() > 0,
        parts[0].len() > 0,
    ensures
        join(parts, sep).len() > 0,
        join(parts, sep)[0] == parts[0][0],
{
    if parts.len() == 1 {
        assert(join(parts, sep) == parts[0]);
    } else {
        assert(parts =~= seq![parts[0]] + parts.drop_first());
        lemma_join_front(parts[0], parts.drop_first(), sep);
        assert(join(parts, sep) == parts[0] + sep + join(parts.drop_first(), sep));
    }
}

/// Two parts joined by a one-character separator.
pub proof fn lemma_join_two(a: Seq<char>, b: Seq<char>, c: char)
    ensures
        join(seq![a, b], seq![c]) == a + seq![c] + b,
{
    let parts = seq![a, b];
    assert(parts.drop_last() =~= seq![a]);
    assert(join(seq![a], seq![c]) == a);
}

/// `head`, then `tail`, as one string (`format!("{}{}", ..)`).
pub fn cat2(head: &str, tail: &str) -> (r: String)
    ensures
        r@ == head@ + tail@,
{
    let a = chars_of(head);
    let b = concat(a.as_slice(), chars_of(tail).as_slice());
    string_of(b.as_slice())
}

/// `head`, then `mid`, then `tail`, as one string (`format!("{}{}{}", ..)`).
pub fn cat3(head: &str, mid: &str, tail: &str) -> (r: String)
    ensures
        r@ == head@ + mid@ + tail@,
{
    let a = chars_of(head);
    let b = concat(a.as_slice(), chars_of(mid).as_slice());
    let c = concat(b.as_slice(), chars_of(tail).as_slice());
    string_of(c.as_slice())
}

/// The lines of a text, as `str::lines` gives them, each trimmed: the
/// text is cut at each `\n`, and a final `\n` ends the last line rather
/// than starting an empty one.
pub open spec fn trimmed_lines(s: Seq<char>) -> Seq<Seq<char>> {
    let parts = split(s, seq!['\n']);
    let kept = if s.len() > 0 && s.last() == '\n' {
        parts.drop_last()
    } else if s.len() == 0 {
        seq![]
    } else {
        parts
    };
    kept.map_values(|l: Seq<char>| trim(l))
}

/// The trimmed lines of a text (`s.lines().map(str::trim)`).
pub fn trimmed_lines_exec(s: &str) -> (r: Vec<String>)
    ensures
        r.deep_view() == trimmed_lines(s@),
{
    let cs = chars_of(s);
    let nl = vec!['\n'];
    assert(nl@ =~= seq!['\n']);
    let parts = split_chars(cs.as_slice(), nl.as_slice());
    let ghost pv = views(parts@);
    proof {
        lemma_split_nonempty(cs@, seq!['\n']);
    }
    let n: usize = if cs.len() > 0 && cs[cs.len() - 1] == '\n' {
        parts.len() - 1
    } else if cs.len() == 0 {
        0
    } else {
        parts.len()
    };
    let ghost kept = if s@.len() > 0 && s@.last() == '\n' {
        pv.drop_last()
    } else if s@.len() == 0 {
        Seq::<Seq<char>>::empty()
    } else {
        pv
    };
    assert(kept.len() == n);
    let mut out: Vec<String> = Vec::new();
    let mut i: usize = 0;
    while i < n
        invariant
            i <= n,
            n <= parts@.len(),
            kept.len() == n,
            pv == views(parts@),
            forall|j: int| 0 <= j < n ==> kept[j] == pv[j],
            out@.len() == i,
            forall|j: int| 0 <= j < i ==> (#[trigger] out@[j])@ == trim(kept[j]),
        decreases n - i,
    {
        let t = trim_chars(parts[i].as_slice());
        out.push(string_of(t.as_slice()));
        i = i + 1;
    }
    assert(out.deep_view() =~= trimmed_lines(s@));
    out
}

proof fn lemma_split_nonempty(s: Seq<char>, p: Seq<char>)
    requires
        p.len() > 0,
    ensures
        split(s, p).len() >= 1,
{
    lemma_join_split(s, p);
}

/// What `str::replace` gives for the empty pattern, which matches at every
/// character boundary: the replacement before each character and at the end.
pub open spec fn replace_empty(s: Seq<char>, r: Seq<char>) -> Seq<char>
    decreases s.len(),
{
    if s.len() == 0 {
        r
    } else {
        r + seq![s[0]] + replace_empty(s.drop_first(), r)
    }
}

/// `str::replace`: each occurrence of the pattern, from the left and not
/// overlapping, replaced.
pub open spec fn replace_all(s: Seq<char>, p: Seq<char>, r: Seq<char>) -> Seq<char>
    decreases s.len(),
{
    if p.len() == 0 {
        replace_empty(s, r)
    } else {
        match find(s, p) {
            Some(i) => if 0 <= i && i + p.len() <= s.len() {
                s.take(i) + r + replace_all(s.skip(i + p.len()), p, r)
            } else {
                s
            },
            None => s,
        }
    }
}

/// Replaces each occurrence of a pattern.
pub fn replace_str(s: &str, p: &str, r: &str) -> (out: String)
    ensures
        out@ == replace_all(s@, p@, r@),
{
    let cs = chars_of(s);
    let ps = chars_of(p);
    let rs = chars_of(r);
    if ps.len() == 0 {
        let mut acc: Vec<char> = Vec::new();
        let mut k: usize = 0;
        assert(cs@.skip(0) =~= cs@);
        assert(acc@ + replace_empty(cs@.skip(0), r@) =~= replace_empty(cs@, r@));
        while k < cs.len()
            invariant
                k <= cs@.len(),
                rs@ == r@,
                acc@ + replace_empty(cs@.skip(k as int), r@) == replace_empty(cs@, r@),
            decreases cs@.len() - k,
        {
            let ghost rest = cs@.skip(k as int);
            assert(rest[0] == cs@[k as int]);
            assert(rest.drop_first() =~= cs@.skip(k + 1));
            let a = concat(acc.as_slice(), rs.as_slice());
            let mut one: Vec<char> = Vec::new();
            one.push(cs[k]);
            let ghost old_acc = acc@;
            acc = concat(a.as_slice(), one.as_slice());
            assert(acc@ + replace_empty(cs@.skip(k + 1), r@) =~= old_acc + replace_empty(rest, r@));
            k = k + 1;
        }
        assert(cs@.skip(k as int) =~= Seq::<char>::empty());
        let out = concat(acc.as_slice(), rs.as_slice());
        return string_of(out.as_slice());
    }
    let mut acc: Vec<char> = Vec::new();
    let mut pos: usize = 0;
    let n = cs.len();
    assert(cs@.skip(0) =~= cs@);
    assert(acc@ + replace_all(cs@.skip(0), p@, r@) =~= replace_all(s@, p@, r@));
    while pos < n
        invariant
            pos <= n,
            n == cs@.len(),
            cs@ == s@,
            ps@ == p@,
            rs@ == r@,
            p@.len() > 0,
            acc@ + replace_all(cs@.skip(pos as int), p@, r@) == replace_all(s@, p@, r@),
        decreases n - pos,
    {
        let ghost rest = cs@.skip(pos as int);
        match find_from(cs.as_slice(), ps.as_slice(), pos) {
            Some(j) => {
                proof {
                    lemma_find_some(rest, p@);
                }
                let ghost k = (j - pos) as int;
                let head = slice_vec(cs.as_slice(), pos, j);
                assert(head@ =~= rest.take(k));
                let a = concat(acc.as_slice(), head.as_slice());
                acc = concat(a.as_slice(), rs.as_slice());
                assert(rest.skip(k + p@.len()) =~= cs@.skip(j + ps@.len()));
                assert(acc@ + replace_all(cs@.skip(j + ps@.len()), p@, r@) =~= (a@ + r@) + replace_all(
                    rest.skip(k + p@.len()),
                    p@,
                    r@,
                ));
                pos = j + ps.len();
            },
            None => {
                let tail = slice_vec(cs.as_slice(), pos, n);
                assert(tail@ =~= rest);
                acc = concat(acc.as_slice(), tail.as_slice());
                assert(cs@.skip(n as int) =~= Seq::<char>::empty());
                pos = n;
            },
        }
    }
    assert(cs@.skip(n as int) =~= Seq::<char>::empty());
    assert(replace_all(Seq::<char>::empty(), p@, r@) == Seq::<char>::empty()) by {
        lemma_find_empty(p@);
    }
    assert(acc@ + Seq::<char>::empty() =~= acc@);
    string_of(acc.as_slice())
}

proof fn lemma_find_empty(p: Seq<char>)
    requires
        p.len() > 0,
    ensures
        find(Seq::<char>::empty(), p) is None,
{
    lemma_find_none(Seq::<char>::empty(), p);
}

/// The parts of a text between its `\n`s, a final `\n` ending the last
/// line rather than starting an empty one.
pub open spec fn line_parts(s: Seq<char>) -> Seq<Seq<char>> {
    let parts = split(s, seq!['\n']);
    if s.len() > 0 && s.last() == '\n' {
        parts.drop_last()
    } else if s.len() == 0 {
        seq![]
    } else {
        parts
    }
}

/// A line without the `\r` of a `\r\n` ending.
pub open spec fn strip_cr(l: Seq<char>) -> Seq<char> {
    if l.len() > 0 && l.last() == '\r' {
        l.drop_last()
    } else {
        l
    }
}

/// The lines of a text as `str::lines` gives them.
pub open spec fn str_lines(s: Seq<char>) -> Seq<Seq<char>> {
    line_parts(s).map_values(|l: Seq<char>| strip_cr(l))
}

/// A text whose first line is replaced, its lines joined by `\n` (empty
/// where it has no line).
pub open spec fn with_first_line(s: Seq<char>, first: Seq<char>) -> Seq<char> {
    let ls = str_lines(s);
    if ls.len() == 0 {
        seq![]
    } else {
        join(ls.update(0, first), seq!['\n'])
    }
}

/// Replaces the first line of a text (`lines[0] = ..; lines.join("\n")`).
pub fn replace_first_line(s: &str, first: &str) -> (r: String)
    ensures
        r@ == with_first_line(s@, first@),
{
    let cs = chars_of(s);
    let nl = vec!['\n'];
    assert(nl@ =~= seq!['\n']);
    let parts = split_chars(cs.as_slice(), nl.as_slice());
    let ghost pv = views(parts@);
    proof {
        lemma_split_nonempty(cs@, seq!['\n']);
    }
    let n: usize = if cs.len() > 0 && cs[cs.len() - 1] == '\n' {
        parts.len() - 1
    } else if cs.len() == 0 {
        0
    } else {
        parts.len()
    };
    let ghost kept = line_parts(s@);
    assert(kept.len() == n);
    assert(forall|j: int| 0 <= j < n ==> kept[j] == pv[j]);
    let mut out: Vec<String> = Vec::new();
    let mut i: usize = 0;
    while i < n
        invariant
            i <= n,
            n <= parts@.len(),
            kept.len() == n,
            pv == views(parts@),
            forall|j: int| 0 <= j < n ==> kept[j] == pv[j],
            out@.len() == i,
            forall|j: int| 0 <= j < i ==> (#[trigger] out@[j])@ == (if j == 0 {
                first@
            } else {
                strip_cr(kept[j])
            }),
        decreases n - i,
    {
        if i == 0 {
            out.push(owned(first));
        } else {
            let p = parts[i].as_slice();
            let m = p.len();
            let line = if m > 0 && p[m - 1] == '\r' {
                slice_vec(p, 0, m - 1)
            } else {
                slice_vec(p, 0, m)
            };
            assert(line@ =~= strip_cr(kept[i as int]));
            out.push(string_of(line.as_slice()));
        }
        i = i + 1;
    }
    let ghost ls = str_lines(s@);
    if n == 0 {
        assert(ls.len() == 0);
        let r = string_of(Vec::<char>::new().as_slice());
        assert(r@ =~= with_first_line(s@, first@));
        r
    } else {
        assert(out.deep_view() =~= ls.update(0, first@));
        let r = join_strs(out.as_slice(), "\n");
        proof {
            reveal_strlit("\n");
        }
        assert("\n"@ =~= seq!['\n']);
        r
    }
}

} // verus!
