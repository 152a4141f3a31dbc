//! Grapheme-indexed text.
//!
//! A text is a string together with the start offsets (counted in
//! characters) of its grapheme clusters. Lengths and indices are measured
//! in clusters.
use unicode_segmentation::UnicodeSegmentation;
use unicode_width::UnicodeWidthStr;
use vstd::prelude::*;
use vstd::string::*;

verus! {

/// The grapheme clusters of a string under the extended segmentation rules.
pub uninterp spec fn graphemes_of(s: Seq<char>) -> Seq<Seq<char>>;

/// The display width of a string in terminal columns.
pub uninterp spec fn width_of(s: Seq<char>) -> nat;

/// The display width of a string where ambiguous characters are wide.
pub uninterp spec fn width_cjk_of(s: Seq<char>) -> nat;

/// The concatenation of a sequence of strings.
pub open spec fn joined(gs: Seq<Seq<char>>) -> Seq<char>
    decreases gs.len(),
{
    if gs.len() == 0 {
        Seq::empty()
    } else {
        joined(gs.drop_last()) + gs.last()
    }
}

/// The character views of a sequence of strings.
pub open spec fn string_views(v: Seq<String>) -> Seq<Seq<char>> {
    v.map_values(|g: String| g@)
}

/// Relies on `UnicodeSegmentation::graphemes` (extended clusters): it yields
/// consecutive, non-empty slices of `s` that together cover it.
#[verifier::external_body]
fn segment(s: &str) -> (r: Vec<String>)
    ensures
        string_views(r@) == graphemes_of(s@),
        joined(string_views(r@)) == s@,
        forall|i: int| 0 <= i < r@.len() ==> (#[trigger] string_views(r@)[i]).len() > 0,
{
    s.graphemes(true).map(|g| g.to_string()).collect()
}

/// Relies on `UnicodeWidthStr::width` for `str`.
#[verifier::external_body]
fn str_width(s: &str) -> (r: usize)
    ensures
        r as nat == width_of(s@),
{
    s.width()
}

/// Relies on `UnicodeWidthStr::width_cjk` for `str`.
#[verifier::external_body]
fn str_width_cjk(s: &str) -> (r: usize)
    ensures
        r as nat == width_cjk_of(s@),
{
    s.width_cjk()
}

/// Splitting a concatenation at a number of parts.
pub proof fn lemma_joined_split(gs: Seq<Seq<char>>, k: int)
    requires
        0 <= k <= gs.len(),
    ensures
        joined(gs) == joined(gs.take(k)) + joined(gs.skip(k)),
    decreases gs.len(),
{
    if k == gs.len() {
        assert(gs.take(k) =~= gs);
        assert(gs.skip(k) =~= Seq::<Seq<char>>::empty());
        assert(joined(gs) + Seq::<char>::empty() =~= joined(gs));
    } else {
        lemma_joined_split(gs.drop_last(), k);
        assert(gs.drop_last().take(k) =~= gs.take(k));
        assert(gs.skip(k).drop_last() =~= gs.drop_last().skip(k));
        assert(gs.skip(k).last() == gs.last());
        assert(joined(gs.take(k)) + joined(gs.skip(k)) =~= joined(gs.take(k)) + joined(
            gs.drop_last().skip(k),
        ) + gs.last());
    }
}

/// The concatenation of one more part.
pub proof fn lemma_joined_take_next(gs: Seq<Seq<char>>, k: int)
    requires
        0 <= k < gs.len(),
    ensures
        joined(gs.take(k + 1)) == joined(gs.take(k)) + gs[k],
{
    assert(gs.take(k + 1).drop_last() =~= gs.take(k));
}

/// The end offset of cluster `i`.
pub open spec fn cluster_end(idxs: Seq<usize>, len: int, i: int) -> int {
    if i + 1 < idxs.len() {
        idxs[i + 1] as int
    } else {
        len
    }
}

/// The start offset of the cluster at `i`, or the length at the end.
pub open spec fn offset_at(idxs: Seq<usize>, len: int, i: int) -> int {
    if i < idxs.len() {
        idxs[i] as int
    } else {
        len
    }
}

/// Well-formed cluster starts of a string of `len` characters.
pub open spec fn starts_wf(idxs: Seq<usize>, len: int) -> bool {
    &&& (idxs.len() == 0 <==> len == 0)
    &&& (idxs.len() > 0 ==> idxs[0] == 0)
    &&& forall|i: int| 0 <= i < idxs.len() ==> #[trigger] idxs[i] < len
    &&& forall|i: int, j: int| 0 <= i < j < idxs.len() ==> idxs[i] < idxs[j]
}

/// The clusters of `s` delimited by the starts `idxs`.
pub open spec fn clusters(s: Seq<char>, idxs: Seq<usize>) -> Seq<Seq<char>> {
    Seq::new(idxs.len(), |i: int| s.subrange(idxs[i] as int, cluster_end(idxs, s.len() as int, i)))
}

/// The part of a concatenation that one piece occupies.
proof fn lemma_joined_piece(gs: Seq<Seq<char>>, i: int)
    requires
        0 <= i < gs.len(),
    ensures
        joined(gs.take(i + 1)).len() == joined(gs.take(i)).len() + gs[i].len(),
        joined(gs.take(i + 1)).len() <= joined(gs).len(),
        joined(gs).subrange(joined(gs.take(i)).len() as int, joined(gs.take(i + 1)).len() as int)
            == gs[i],
{
    lemma_joined_take_next(gs, i);
    lemma_joined_split(gs, i + 1);
    let a = joined(gs.take(i));
    assert(joined(gs).subrange(a.len() as int, (a.len() + gs[i].len()) as int) =~= gs[i]);
}

/// Start offsets laid out piece by piece describe the pieces.
proof fn lemma_starts_of_pieces(s: Seq<char>, gs: Seq<Seq<char>>, idxs: Seq<usize>)
    requires
        joined(gs) == s,
        forall|i: int| 0 <= i < gs.len() ==> (#[trigger] gs[i]).len() > 0,
        idxs.len() == gs.len(),
        forall|i: int| 0 <= i < idxs.len() ==> #[trigger] idxs[i] as int == joined(gs.take(i)).len(),
        forall|i: int, j: int| 0 <= i < j < idxs.len() ==> idxs[i] < idxs[j],
    ensures
        starts_wf(idxs, s.len() as int),
        clusters(s, idxs) == gs,
{
    assert(gs.take(gs.len() as int) =~= gs);
    assert forall|i: int| 0 <= i < idxs.len() implies #[trigger] idxs[i] < s.len() by {
        lemma_joined_piece(gs, i);
    }
    assert(idxs.len() > 0 ==> idxs[0] == 0) by {
        assert(gs.take(0) =~= Seq::<Seq<char>>::empty());
    }
    assert(idxs.len() == 0 ==> s.len() == 0) by {
        if idxs.len() == 0 {
            assert(gs =~= Seq::<Seq<char>>::empty());
        }
    }
    assert forall|i: int| 0 <= i < idxs.len() implies #[trigger] clusters(s, idxs)[i] == gs[i] by {
        lemma_joined_piece(gs, i);
        if i + 1 < idxs.len() {
            assert(idxs[i + 1] as int == joined(gs.take(i + 1)).len());
        }
    }
    assert(clusters(s, idxs) =~= gs);
}

/// Computes the start offsets of the grapheme clusters of `s`.
pub fn calculate_grapheme_idxs(s: &str) -> (r: Vec<usize>)
    ensures
        starts_wf(r@, s@.len() as int),
        clusters(s@, r@) == graphemes_of(s@),
{
    let parts = segment(s);
    let _total = s.unicode_len();
    let ghost gs = string_views(parts@);
    let mut idxs: Vec<usize> = Vec::new();
    let mut offset: usize = 0;
    let mut k: usize = 0;
    proof {
        assert(gs.take(0) =~= Seq::<Seq<char>>::empty());
    }
    while k < parts.len()
        invariant
            gs == string_views(parts@),
            joined(gs) == s@,
            s@.len() <= usize::MAX,
            forall|i: int| 0 <= i < gs.len() ==> (#[trigger] gs[i]).len() > 0,
            k <= parts.len(),
            idxs@.len() == k,
            offset as int == joined(gs.take(k as int)).len(),
            forall|i: int| 0 <= i < k ==> #[trigger] idxs@[i] as int == joined(gs.take(i)).len(),
            forall|i: int, j: int| 0 <= i < j < k ==> idxs@[i] < idxs@[j],
            k > 0 ==> idxs@[k - 1] < offset,
        decreases parts.len() - k,
    {
        proof {
            lemma_joined_piece(gs, k as int);
        }
        let n = parts[k].as_str().unicode_len();
        assert(gs[k as int] == parts@[k as int]@);
        idxs.push(offset);
        offset = offset + n;
        k = k + 1;
    }
    proof {
        assert forall|i: int| 0 <= i < gs.len() implies (#[trigger] gs[i]).len() > 0 by {}
        lemma_starts_of_pieces(s@, gs, idxs@);
    }
    idxs
}

/// Cutting the last cluster off.
proof fn lemma_clusters_prefix(s: Seq<char>, idxs: Seq<usize>, k: int)
    requires
        starts_wf(idxs, s.len() as int),
        0 <= k <= idxs.len(),
    ensures
        starts_wf(idxs.take(k), offset_at(idxs, s.len() as int, k)),
        clusters(s.subrange(0, offset_at(idxs, s.len() as int, k)), idxs.take(k)) == clusters(
            s,
            idxs,
        ).take(k),
{
    let m = offset_at(idxs, s.len() as int, k);
    let s2 = s.subrange(0, m);
    let i2 = idxs.take(k);
    assert(m <= s.len());
    assert forall|i: int| 0 <= i < i2.len() implies #[trigger] i2[i] < m by {
        if k < idxs.len() {
            assert(idxs[i] < idxs[k]);
        }
    }
    if i2.len() > 0 && m == 0 {
        assert(idxs[0] == 0);
        if k < idxs.len() {
            assert(idxs[0] < idxs[k]);
        }
    }
    assert forall|i: int| 0 <= i < i2.len() implies #[trigger] clusters(s2, i2)[i] == clusters(
        s,
        idxs,
    ).take(k)[i] by {
        if i + 1 < k {
            assert(idxs[i] < idxs[i + 1]);
        } else if k < idxs.len() {
            assert(idxs[i] < idxs[k]);
        }
        assert(s2.subrange(i2[i] as int, cluster_end(i2, m, i)) =~= s.subrange(
            idxs[i] as int,
            cluster_end(idxs, s.len() as int, i),
        ));
    }
    assert(clusters(s2, i2) =~= clusters(s, idxs).take(k));
}

/// Well-formed starts describe clusters that concatenate to the string.
pub proof fn lemma_clusters_joined(s: Seq<char>, idxs: Seq<usize>)
    requires
        starts_wf(idxs, s.len() as int),
    ensures
        joined(clusters(s, idxs)) == s,
        forall|i: int| 0 <= i < idxs.len() ==> (#[trigger] clusters(s, idxs)[i]).len() > 0,
    decreases idxs.len(),
{
    let n = idxs.len() as int;
    assert forall|i: int| 0 <= i < idxs.len() implies (#[trigger] clusters(s, idxs)[i]).len()
        > 0 by {
        if i + 1 < n {
            assert(idxs[i] < idxs[i + 1]);
        }
    }
    if n == 0 {
        assert(s =~= Seq::<char>::empty());
    } else {
        lemma_clusters_prefix(s, idxs, n - 1);
        let m = idxs[n - 1] as int;
        lemma_clusters_joined(s.subrange(0, m), idxs.take(n - 1));
        assert(clusters(s, idxs).take(n - 1) =~= clusters(s, idxs).drop_last());
        assert(s =~= s.subrange(0, m) + s.subrange(m, s.len() as int));
    }
}

/// The offset of cluster `k` is the length of the clusters before it.
proof fn lemma_clusters_offset(s: Seq<char>, idxs: Seq<usize>, k: int)
    requires
        starts_wf(idxs, s.len() as int),
        0 <= k <= idxs.len(),
    ensures
        joined(clusters(s, idxs).take(k)).len() == offset_at(idxs, s.len() as int, k),
        joined(clusters(s, idxs).take(k)) == s.subrange(0, offset_at(idxs, s.len() as int, k)),
{
    lemma_clusters_prefix(s, idxs, k);
    lemma_clusters_joined(s.subrange(0, offset_at(idxs, s.len() as int, k)), idxs.take(k));
}

/// The number of characters in the clusters before cluster `k`.
pub open spec fn cluster_offset(gs: Seq<Seq<char>>, k: int) -> int {
    joined(gs.take(k)).len() as int
}

/// Whether `needle` occurs in `hay` at character position `i`.
pub open spec fn matches_at(hay: Seq<char>, needle: Seq<char>, i: int) -> bool {
    0 <= i && i + needle.len() <= hay.len() && hay.subrange(i, i + needle.len()) == needle
}

/// Whether the first occurrence of `needle` in `hay` is at position `i`.
pub open spec fn first_match_at(hay: Seq<char>, needle: Seq<char>, i: int) -> bool {
    matches_at(hay, needle, i) && forall|j: int| 0 <= j < i ==> !matches_at(hay, needle, j)
}

/// A range of grapheme indices, as taken by [`Text::slice`].
pub trait GraphemeRange {
    /// The first index in the range.
    spec fn lower(&self) -> int;

    /// The index one past the range, for a text of `len` clusters.
    spec fn upper(&self, len: int) -> int;

    /// The bounds of the range, first index and one past the end.
    fn grapheme_bounds(&self, len: usize) -> (r: (usize, usize))
        requires
            0 <= self.lower() <= self.upper(len as int) <= len,
        ensures
            r.0 == self.lower(),
            r.1 == self.upper(len as int),
    ;
}

/// Declares std's `RangeFrom` (`a..`), whose public field `start` a slice
/// reads.
#[verifier::external_type_specification]
#[verifier::reject_recursive_types(Idx)]
pub struct ExRangeFrom<Idx>(core::ops::RangeFrom<Idx>);

/// Declares std's `RangeTo` (`..b`), whose public field `end` a slice
/// reads.
#[verifier::external_type_specification]
#[verifier::reject_recursive_types(Idx)]
pub struct ExRangeTo<Idx>(core::ops::RangeTo<Idx>);

/// Declares std's `RangeToInclusive` (`..=b`), whose public field `end` a
/// slice reads.
#[verifier::external_type_specification]
#[verifier::reject_recursive_types(Idx)]
pub struct ExRangeToInclusive<Idx>(core::ops::RangeToInclusive<Idx>);

/// Declares std's `RangeFull` (`..`), which has no fields.
#[verifier::external_type_specification]
pub struct ExRangeFull(core::ops::RangeFull);

impl GraphemeRange for core::ops::Range<usize> {
    open spec fn lower(&self) -> int {
        self.start as int
    }

    open spec fn upper(&self, len: int) -> int {
        self.end as int
    }

    fn grapheme_bounds(&self, len: usize) -> (r: (usize, usize)) {
        (self.start, self.end)
    }
}

impl GraphemeRange for core::ops::RangeFrom<usize> {
    open spec fn lower(&self) -> int {
        self.start as int
    }

    open spec fn upper(&self, len: int) -> int {
        len
    }

    fn grapheme_bounds(&self, len: usize) -> (r: (usize, usize)) {
        (self.start, len)
    }
}

impl GraphemeRange for core::ops::RangeTo<usize> {
    open spec fn lower(&self) -> int {
        0
    }

    open spec fn upper(&self, len: int) -> int {
        self.end as int
    }

    fn grapheme_bounds(&self, len: usize) -> (r: (usize, usize)) {
        (0, self.end)
    }
}

impl GraphemeRange for core::ops::RangeToInclusive<usize> {
    open spec fn lower(&self) -> int {
        0
    }

    open spec fn upper(&self, len: int) -> int {
        self.end + 1
    }

    fn grapheme_bounds(&self, len: usize) -> (r: (usize, usize)) {
        (0, self.end + 1)
    }
}

impl GraphemeRange for core::ops::RangeFull {
    open spec fn lower(&self) -> int {
        0
    }

    open spec fn upper(&self, len: int) -> int {
        len
    }

    fn grapheme_bounds(&self, len: usize) -> (r: (usize, usize)) {
        (0, len)
    }
}

/// The starts of a run of clusters, shifted to the run's own start.
pub open spec fn shifted_starts(idxs: Seq<usize>, a: int, b: int, start: int) -> Seq<usize> {
    Seq::new((b - a) as nat, |i: int| (idxs[a + i] - start) as usize)
}

/// A run of clusters cut out of a string keeps its clusters.
proof fn lemma_slice_clusters(s: Seq<char>, idxs: Seq<usize>, a: int, b: int)
    requires
        starts_wf(idxs, s.len() as int),
        0 <= a <= b <= idxs.len(),
    ensures
        ({
            let start = offset_at(idxs, s.len() as int, a);
            let end = offset_at(idxs, s.len() as int, b);
            &&& 0 <= start <= end <= s.len()
            &&& starts_wf(shifted_starts(idxs, a, b, start), end - start)
            &&& clusters(s.subrange(start, end), shifted_starts(idxs, a, b, start)) == clusters(
                s,
                idxs,
            ).subrange(a, b)
        }),
{
    let len = s.len() as int;
    let start = offset_at(idxs, len, a);
    let end = offset_at(idxs, len, b);
    let i2 = shifted_starts(idxs, a, b, start);
    let s2 = s.subrange(start, end);
    assert(start <= end) by {
        if a < b && b < idxs.len() {
            assert(idxs[a] < idxs[b]);
        }
    }
    assert forall|i: int| 0 <= i < i2.len() implies #[trigger] i2[i] < end - start by {
        if b < idxs.len() {
            assert(idxs[a + i] < idxs[b]);
        }
        if i > 0 {
            assert(idxs[a] < idxs[a + i]);
        }
    }
    assert forall|i: int, j: int| 0 <= i < j < i2.len() implies i2[i] < i2[j] by {
        assert(idxs[a + i] < idxs[a + j]);
        if i > 0 {
            assert(idxs[a] < idxs[a + i]);
        }
    }
    if i2.len() > 0 && end - start == 0 {
        if b < idxs.len() {
            assert(idxs[a] < idxs[b]);
        }
    }
    assert forall|i: int| 0 <= i < i2.len() implies #[trigger] clusters(s2, i2)[i] == clusters(
        s,
        idxs,
    ).subrange(a, b)[i] by {
        if i > 0 {
            assert(idxs[a] < idxs[a + i]);
        }
        if i + 1 < i2.len() {
            assert(idxs[a] < idxs[a + i + 1]);
        }
        if a + i + 1 < idxs.len() {
            assert(idxs[a + i] < idxs[a + i + 1]);
        }
        assert(s2.subrange(i2[i] as int, cluster_end(i2, end - start, i)) =~= s.subrange(
            idxs[a + i] as int,
            cluster_end(idxs, len, a + i),
        ));
    }
    assert(clusters(s2, i2) =~= clusters(s, idxs).subrange(a, b));
}

/// The characters of a well-formed text split at a cluster boundary.
proof fn lemma_split_at_cluster(s: Seq<char>, idxs: Seq<usize>, k: int)
    requires
        starts_wf(idxs, s.len() as int),
        0 <= k <= idxs.len(),
    ensures
        s.subrange(0, offset_at(idxs, s.len() as int, k)) == joined(clusters(s, idxs).take(k)),
        s.subrange(offset_at(idxs, s.len() as int, k), s.len() as int) == joined(
            clusters(s, idxs).skip(k),
        ),
        offset_at(idxs, s.len() as int, k) == cluster_offset(clusters(s, idxs), k),
{
    lemma_clusters_offset(s, idxs, k);
    lemma_clusters_joined(s, idxs);
    lemma_joined_split(clusters(s, idxs), k);
    let m = offset_at(idxs, s.len() as int, k);
    assert(s.subrange(m, s.len() as int) =~= joined(clusters(s, idxs)).subrange(
        joined(clusters(s, idxs).take(k)).len() as int,
        s.len() as int,
    ));
    assert(joined(clusters(s, idxs)).subrange(
        joined(clusters(s, idxs).take(k)).len() as int,
        s.len() as int,
    ) =~= joined(clusters(s, idxs).skip(k)));
}

/// Copies a sequence of offsets.
fn copy_offsets(v: &Vec<usize>) -> (r: Vec<usize>)
    ensures
        r@ == v@,
{
    let mut r: Vec<usize> = Vec::new();
    let mut i: usize = 0;
    while i < v.len()
        invariant
            i <= v.len(),
            r@ == v@.take(i as int),
        decreases v.len() - i,
    {
        r.push(v[i]);
        i = i + 1;
        assert(r@ =~= v@.take(i as int));
    }
    assert(v@.take(v@.len() as int) =~= v@);
    r
}

/// The position of the first occurrence of `needle` in `hay`, counted in
/// characters.
fn first_match(hay: &str, needle: &str) -> (r: Option<usize>)
    ensures
        match r {
            Some(i) => first_match_at(hay@, needle@, i as int),
            None => forall|i: int| !matches_at(hay@, needle@, i),
        },
{
    let n = hay.unicode_len();
    let m = needle.unicode_len();
    if m > n {
        return None;
    }
    if m == 0 {
        assert(hay@.subrange(0, 0) =~= needle@);
        return Some(0);
    }
    let mut i: usize = 0;
    while i <= n - m
        invariant
            n == hay@.len(),
            m == needle@.len(),
            0 < m <= n,
            forall|j: int| 0 <= j < i ==> !matches_at(hay@, needle@, j),
        decreases n - m + 1 - i,
    {
        let mut j: usize = 0;
        let mut same = true;
        while j < m && same
            invariant
                n == hay@.len(),
                m == needle@.len(),
                i + m <= n,
                j <= m,
                same ==> forall|t: int| 0 <= t < j ==> hay@[i + t] == needle@[t],
                !same ==> !matches_at(hay@, needle@, i as int),
            decreases m - j,
        {
            if hay.get_char(i + j) != needle.get_char(j) {
                same = false;
                assert(hay@.subrange(i as int, i + m)[j as int] != needle@[j as int]);
            }
            j = j + 1;
        }
        if same {
            assert(hay@.subrange(i as int, i + m) =~= needle@);
            return Some(i);
        }
        i = i + 1;
    }
    assert forall|j: int| !matches_at(hay@, needle@, j) by {
        if j >= i {
        }
    }
    None
}

/// A borrowed string with its grapheme cluster index.
#[derive(Debug, Clone, PartialEq, Eq, PartialOrd, Ord, Hash)]
pub struct Text<'a> {
    s: &'a str,
    grapheme_idxs: Vec<usize>,
}

/// An owned string with its grapheme cluster index.
#[derive(Debug, Clone, PartialEq, Eq, PartialOrd, Ord, Hash)]
pub struct TextBuf {
    s: String,
    grapheme_idxs: Vec<usize>,
}

impl<'a> View for Text<'a> {
    type V = Seq<Seq<char>>;

    /// The grapheme clusters, in order.
    closed spec fn view(&self) -> Seq<Seq<char>> {
        clusters(self.s@, self.grapheme_idxs@)
    }
}

impl View for TextBuf {
    type V = Seq<Seq<char>>;

    /// The grapheme clusters, in order.
    closed spec fn view(&self) -> Seq<Seq<char>> {
        clusters(self.s@, self.grapheme_idxs@)
    }
}

/// Well-formed clusters: each one holds at least one character.
pub open spec fn clusters_wf(gs: Seq<Seq<char>>) -> bool {
    forall|i: int| 0 <= i < gs.len() ==> (#[trigger] gs[i]).len() > 0
}

impl<'a> Text<'a> {
    /// The index matches the string.
    pub closed spec fn wf(&self) -> bool {
        starts_wf(self.grapheme_idxs@, self.s@.len() as int) && self.s@.len() <= usize::MAX
    }

    /// The characters of the text.
    pub open spec fn text(&self) -> Seq<char> {
        joined(self@)
    }

    /// What a well-formed text offers its callers.
    pub proof fn lemma_wf(&self)
        requires
            self.wf(),
        ensures
            clusters_wf(self@),
            self.text().len() <= usize::MAX,
    {
        lemma_clusters_joined(self.s@, self.grapheme_idxs@);
    }

    /// Segments `s` into grapheme clusters.
    pub fn new(s: &'a str) -> (r: Self)
        ensures
            r.wf(),
            r@ == graphemes_of(s@),
            r.text() == s@,
    {
        let grapheme_idxs = calculate_grapheme_idxs(s);
        let _n = s.unicode_len();
        proof {
            lemma_clusters_joined(s@, grapheme_idxs@);
        }
        Self { s, grapheme_idxs }
    }
}

impl<'a> Text<'a> {
    /// The clusters from `range.lower()` up to `range.upper(len)`.
    pub fn slice<R: GraphemeRange>(&self, range: R) -> (r: Text<'a>)
        requires
            self.wf(),
            0 <= range.lower() <= range.upper(self@.len() as int) <= self@.len(),
        ensures
            r.wf(),
            r@ == self@.subrange(range.lower(), range.upper(self@.len() as int)),
    {
        let n = self.grapheme_idxs.len();
        let (a, b) = range.grapheme_bounds(n);
        let len = self.s.unicode_len();
        let start = if a < n {
            self.grapheme_idxs[a]
        } else {
            len
        };
        let end = if b < n {
            self.grapheme_idxs[b]
        } else {
            len
        };
        proof {
            lemma_slice_clusters(self.s@, self.grapheme_idxs@, a as int, b as int);
        }
        let sub = self.s.substring_char(start, end);
        let mut idxs: Vec<usize> = Vec::new();
        let mut k: usize = a;
        while k < b
            invariant
                a <= k <= b <= n,
                n == self.grapheme_idxs@.len(),
                start == offset_at(self.grapheme_idxs@, len as int, a as int),
                starts_wf(self.grapheme_idxs@, len as int),
                a < b ==> start == self.grapheme_idxs@[a as int],
                forall|i: int| a <= i < b ==> start <= #[trigger] self.grapheme_idxs@[i],
                idxs@ == shifted_starts(self.grapheme_idxs@, a as int, k as int, start as int),
            decreases b - k,
        {
            idxs.push(self.grapheme_idxs[k] - start);
            k = k + 1;
            assert(idxs@ =~= shifted_starts(self.grapheme_idxs@, a as int, k as int, start as int));
        }
        Text { s: sub, grapheme_idxs: idxs }
    }

    /// Splits the text at character offset `idx` and segments both halves
    /// anew.
    pub fn split(&self, idx: usize) -> (r: (Self, Self))
        requires
            self.wf(),
            idx <= self.text().len(),
        ensures
            r.0.wf(),
            r.1.wf(),
            r.0.text() == self.text().take(idx as int),
            r.1.text() == self.text().skip(idx as int),
            r.0@ == graphemes_of(self.text().take(idx as int)),
            r.1@ == graphemes_of(self.text().skip(idx as int)),
    {
        proof {
            lemma_clusters_joined(self.s@, self.grapheme_idxs@);
        }
        let len = self.s.unicode_len();
        let before = self.s.substring_char(0, idx);
        let after = self.s.substring_char(idx, len);
        proof {
            assert(before@ =~= self.text().take(idx as int));
            assert(after@ =~= self.text().skip(idx as int));
        }
        (Self::new(before), Self::new(after))
    }

    /// The index of the cluster at which the first occurrence of `needle`
    /// starts; none when there is no occurrence or it starts inside a
    /// cluster.
    pub fn find(&self, needle: &str) -> (r: Option<usize>)
        requires
            self.wf(),
        ensures
            match r {
                Some(k) => k < self@.len() && first_match_at(
                    self.text(),
                    needle@,
                    cluster_offset(self@, k as int),
                ),
                None => forall|k: int|
                    0 <= k < self@.len() ==> !first_match_at(
                        self.text(),
                        needle@,
                        #[trigger] cluster_offset(self@, k),
                    ),
            },
    {
        proof {
            lemma_clusters_joined(self.s@, self.grapheme_idxs@);
        }
        let found = first_match(self.s, needle);
        match found {
            None => {
                None
            },
            Some(c) => {
                let mut k: usize = 0;
                while k < self.grapheme_idxs.len()
                    invariant
                        k <= self.grapheme_idxs@.len(),
                        self.wf(),
                        self.text() == self.s@,
                        first_match_at(self.s@, needle@, c as int),
                        forall|t: int|
                            0 <= t < k ==> !first_match_at(
                                self.text(),
                                needle@,
                                #[trigger] cluster_offset(self@, t),
                            ),
                    decreases self.grapheme_idxs@.len() - k,
                {
                    proof {
                        lemma_split_at_cluster(self.s@, self.grapheme_idxs@, k as int);
                    }
                    if self.grapheme_idxs[k] == c {
                        return Some(k);
                    }
                    proof {
                        if first_match_at(self.text(), needle@, cluster_offset(self@, k as int)) {
                            let o = cluster_offset(self@, k as int);
                            if o < c {
                            } else {
                                assert(!matches_at(self.s@, needle@, c as int));
                            }
                        }
                    }
                    k = k + 1;
                }
                None
            },
        }
    }

    /// The number of grapheme clusters.
    pub fn len(&self) -> (r: usize)
        requires
            self.wf(),
        ensures
            r == self@.len(),
    {
        self.grapheme_idxs.len()
    }

    /// Whether the text holds no characters.
    pub fn is_empty(&self) -> (r: bool)
        requires
            self.wf(),
        ensures
            r == (self.text().len() == 0),
            r == (self@.len() == 0),
    {
        proof {
            lemma_clusters_joined(self.s@, self.grapheme_idxs@);
        }
        self.s.is_empty()
    }

    /// An owned copy of the text with the same clusters.
    pub fn into_text_buf(self) -> (r: TextBuf)
        requires
            self.wf(),
        ensures
            r.wf(),
            r@ == self@,
    {
        TextBuf { s: String::from_str(self.s), grapheme_idxs: self.grapheme_idxs }
    }

    /// The characters of the text.
    pub fn as_str(&self) -> (r: &'a str)
        requires
            self.wf(),
        ensures
            r@ == self.text(),
    {
        proof {
            lemma_clusters_joined(self.s@, self.grapheme_idxs@);
        }
        self.s
    }

    /// The display width in columns.
    pub fn width(&self) -> (r: usize)
        requires
            self.wf(),
        ensures
            r as nat == width_of(self.text()),
    {
        proof {
            lemma_clusters_joined(self.s@, self.grapheme_idxs@);
        }
        str_width(self.s)
    }

    /// The display width in columns, with ambiguous characters wide.
    pub fn width_cjk(&self) -> (r: usize)
        requires
            self.wf(),
        ensures
            r as nat == width_cjk_of(self.text()),
    {
        proof {
            lemma_clusters_joined(self.s@, self.grapheme_idxs@);
        }
        str_width_cjk(self.s)
    }
}

impl<'a> Default for Text<'a> {
    fn default() -> (r: Self)
        ensures
            r.wf(),
            r@ == Seq::<Seq<char>>::empty(),
    {
        proof {
            reveal_strlit("");
        }
        let r = Text { s: "", grapheme_idxs: Vec::new() };
        assert(r@ =~= Seq::<Seq<char>>::empty());
        r
    }
}

impl TextBuf {
    /// The index matches the string.
    pub closed spec fn wf(&self) -> bool {
        starts_wf(self.grapheme_idxs@, self.s@.len() as int) && self.s@.len() <= usize::MAX
    }

    /// The characters of the text.
    pub open spec fn text(&self) -> Seq<char> {
        joined(self@)
    }

    /// What a well-formed text offers its callers.
    pub proof fn lemma_wf(&self)
        requires
            self.wf(),
        ensures
            clusters_wf(self@),
            self.text().len() <= usize::MAX,
    {
        lemma_clusters_joined(self.s@, self.grapheme_idxs@);
    }

    /// Segments `s` into grapheme clusters.
    pub fn new(s: String) -> (r: Self)
        ensures
            r.wf(),
            r@ == graphemes_of(s@),
            r.text() == s@,
    {
        let grapheme_idxs = calculate_grapheme_idxs(s.as_str());
        let _n = s.as_str().unicode_len();
        proof {
            lemma_clusters_joined(s@, grapheme_idxs@);
        }
        Self { s, grapheme_idxs }
    }

    /// The clusters from `range.lower()` up to `range.upper(len)`.
    pub fn slice<R: GraphemeRange>(&self, range: R) -> (r: Text<'_>)
        requires
            self.wf(),
            0 <= range.lower() <= range.upper(self@.len() as int) <= self@.len(),
        ensures
            r.wf(),
            r@ == self@.subrange(range.lower(), range.upper(self@.len() as int)),
    {
        self.as_text().slice(range)
    }

    /// Appends `s` and segments the result anew.
    pub fn push(&mut self, s: &str)
        requires
            old(self).wf(),
        ensures
            final(self).wf(),
            final(self).text() == old(self).text() + s@,
            final(self)@ == graphemes_of(old(self).text() + s@),
    {
        proof {
            lemma_clusters_joined(self.s@, self.grapheme_idxs@);
        }
        self.s.append(s);
        self.recalculate_grapheme_idxs();
    }

    /// Removes the cluster at `idx` and returns it as a text of its own.
    pub fn remove(&mut self, idx: usize) -> (r: Self)
        requires
            old(self).wf(),
            idx < old(self)@.len(),
        ensures
            final(self).wf(),
            r.wf(),
            r.text() == old(self)@[idx as int],
            r@ == graphemes_of(old(self)@[idx as int]),
            final(self).text() == joined(old(self)@.take(idx as int)) + joined(
                old(self)@.skip(idx + 1),
            ),
            final(self)@ == graphemes_of(final(self).text()),
    {
        let ghost gs = self@;
        proof {
            lemma_split_at_cluster(self.s@, self.grapheme_idxs@, idx as int);
            lemma_split_at_cluster(self.s@, self.grapheme_idxs@, idx as int + 1);
            lemma_joined_take_next(gs, idx as int);
            lemma_clusters_joined(self.s@, self.grapheme_idxs@);
        }
        let len = self.s.as_str().unicode_len();
        let grapheme_start = self.grapheme_idxs[idx];
        let grapheme_end = if idx == self.grapheme_idxs.len() - 1 {
            len
        } else {
            self.grapheme_idxs[idx + 1]
        };
        let removed = String::from_str(self.s.as_str().substring_char(grapheme_start, grapheme_end));
        let mut rest = String::from_str(self.s.as_str().substring_char(0, grapheme_start));
        rest.append(self.s.as_str().substring_char(grapheme_end, len));
        proof {
            let s0 = self.s@;
            assert(s0.subrange(0, grapheme_start as int) + gs[idx as int] =~= s0.subrange(
                0,
                grapheme_end as int,
            )) by {
                assert(joined(gs.take(idx + 1)) == joined(gs.take(idx as int)) + gs[idx as int]);
            }
            assert(removed@ =~= gs[idx as int]) by {
                assert(s0.subrange(grapheme_start as int, grapheme_end as int) =~= s0.subrange(
                    0,
                    grapheme_end as int,
                ).subrange(grapheme_start as int, grapheme_end as int));
            }
        }
        self.s = rest;
        self.recalculate_grapheme_idxs();
        Self::new(removed)
    }

    /// Inserts `s` before the cluster at `idx` and segments the result
    /// anew.
    pub fn insert(&mut self, idx: usize, s: &str)
        requires
            old(self).wf(),
            idx <= old(self)@.len(),
        ensures
            final(self).wf(),
            final(self).text() == joined(old(self)@.take(idx as int)) + s@ + joined(
                old(self)@.skip(idx as int),
            ),
            final(self)@ == graphemes_of(final(self).text()),
    {
        proof {
            lemma_split_at_cluster(self.s@, self.grapheme_idxs@, idx as int);
        }
        let len = self.s.as_str().unicode_len();
        let at = if idx == 0 {
            0
        } else if idx == self.grapheme_idxs.len() {
            len
        } else {
            self.grapheme_idxs[idx]
        };
        proof {
            if idx == 0 && self.grapheme_idxs@.len() > 0 {
                assert(self.grapheme_idxs@[0] == 0);
            }
        }
        let mut t = String::from_str(self.s.as_str().substring_char(0, at));
        t.append(s);
        t.append(self.s.as_str().substring_char(at, len));
        self.s = t;
        self.recalculate_grapheme_idxs();
    }

    /// Splits the text at character offset `idx` and segments both halves
    /// anew.
    pub fn split(&self, idx: usize) -> (r: (Text<'_>, Text<'_>))
        requires
            self.wf(),
            idx <= self.text().len(),
        ensures
            r.0.wf(),
            r.1.wf(),
            r.0.text() == self.text().take(idx as int),
            r.1.text() == self.text().skip(idx as int),
            r.0@ == graphemes_of(self.text().take(idx as int)),
            r.1@ == graphemes_of(self.text().skip(idx as int)),
    {
        self.as_text().split(idx)
    }

    /// The index of the cluster at which the first occurrence of `needle`
    /// starts; none when there is no occurrence or it starts inside a
    /// cluster.
    pub fn find(&self, needle: &str) -> (r: Option<usize>)
        requires
            self.wf(),
        ensures
            match r {
                Some(k) => k < self@.len() && first_match_at(
                    self.text(),
                    needle@,
                    cluster_offset(self@, k as int),
                ),
                None => forall|k: int|
                    0 <= k < self@.len() ==> !first_match_at(
                        self.text(),
                        needle@,
                        #[trigger] cluster_offset(self@, k),
                    ),
            },
    {
        self.as_text().find(needle)
    }

    /// The number of grapheme clusters.
    pub fn len(&self) -> (r: usize)
        requires
            self.wf(),
        ensures
            r == self@.len(),
    {
        self.grapheme_idxs.len()
    }

    /// Whether the text holds no characters.
    pub fn is_empty(&self) -> (r: bool)
        requires
            self.wf(),
        ensures
            r == (self.text().len() == 0),
            r == (self@.len() == 0),
    {
        proof {
            lemma_clusters_joined(self.s@, self.grapheme_idxs@);
        }
        self.s.as_str().is_empty()
    }

    /// A borrowed view with the same clusters.
    pub fn as_text(&self) -> (r: Text<'_>)
        requires
            self.wf(),
        ensures
            r.wf(),
            r@ == self@,
    {
        Text { s: self.s.as_str(), grapheme_idxs: copy_offsets(&self.grapheme_idxs) }
    }

    /// The characters of the text.
    pub fn as_str(&self) -> (r: &str)
        requires
            self.wf(),
        ensures
            r@ == self.text(),
    {
        proof {
            lemma_clusters_joined(self.s@, self.grapheme_idxs@);
        }
        self.s.as_str()
    }

    /// The display width in columns.
    pub fn width(&self) -> (r: usize)
        requires
            self.wf(),
        ensures
            r as nat == width_of(self.text()),
    {
        proof {
            lemma_clusters_joined(self.s@, self.grapheme_idxs@);
        }
        str_width(self.s.as_str())
    }

    /// The display width in columns, with ambiguous characters wide.
    pub fn width_cjk(&self) -> (r: usize)
        requires
            self.wf(),
        ensures
            r as nat == width_cjk_of(self.text()),
    {
        proof {
            lemma_clusters_joined(self.s@, self.grapheme_idxs@);
        }
        str_width_cjk(self.s.as_str())
    }

    fn recalculate_grapheme_idxs(&mut self)
        ensures
            final(self).wf(),
            final(self).s@ == old(self).s@,
            final(self).text() == old(self).s@,
            final(self)@ == graphemes_of(old(self).s@),
    {
        self.grapheme_idxs = calculate_grapheme_idxs(self.s.as_str());
        let _n = self.s.as_str().unicode_len();
        proof {
            lemma_clusters_joined(self.s@, self.grapheme_idxs@);
        }
    }
}

impl Default for TextBuf {
    fn default() -> (r: Self)
        ensures
            r.wf(),
            r@ == Seq::<Seq<char>>::empty(),
    {
        let r = TextBuf { s: String::new(), grapheme_idxs: Vec::new() };
        assert(r@ =~= Seq::<Seq<char>>::empty());
        r
    }
}

/// Slicing a text from its first cluster to past its last gives back the
/// same characters.
pub proof fn lemma_slice_all(t: Text<'_>)
    requires
        t.wf(),
    ensures
        joined(t@.subrange(0, t@.len() as int)) == t.text(),
{
    assert(t@.subrange(0, t@.len() as int) =~= t@);
}

/// An owned copy of a text, borrowed again, has the text's clusters and
/// characters.
pub proof fn lemma_text_buf_round_trip(t: Text<'_>, owned: TextBuf, back: Text<'_>)
    requires
        t.wf(),
        owned@ == t@,
        back@ == owned@,
    ensures
        back@ == t@,
        back.text() == t.text(),
{
}

} // verus!
