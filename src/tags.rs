//! Expansion of `$tag` templates over every combination of tag variants.
use vstd::prelude::*;

verus! {

// ---------------------------------------------------------------------------
// Mixed-radix counting over the variant lists
// ---------------------------------------------------------------------------
/// Number of combinations of lists whose lengths are `sizes`.
pub open spec fn product(sizes: Seq<int>) -> int
    decreases sizes.len(),
{
    if sizes.len() == 0 {
        1
    } else {
        sizes[0] * product(sizes.drop_first())
    }
}

/// An index vector picks one variant of each tag.
pub open spec fn valid_index(idx: Seq<int>, sizes: Seq<int>) -> bool {
    &&& idx.len() == sizes.len()
    &&& forall|t: int| 0 <= t < idx.len() ==> 0 <= #[trigger] idx[t] < sizes[t]
}

/// Position of an index vector in the enumeration; the first tag moves fastest.
pub open spec fn rank(idx: Seq<int>, sizes: Seq<int>) -> int
    decreases idx.len(),
{
    if idx.len() == 0 || sizes.len() == 0 {
        0
    } else {
        idx[0] + sizes[0] * rank(idx.drop_first(), sizes.drop_first())
    }
}

/// The index vector at position `k` of the enumeration.
pub open spec fn unrank(k: int, sizes: Seq<int>) -> Seq<int>
    decreases sizes.len(),
{
    if sizes.len() == 0 {
        Seq::empty()
    } else {
        seq![k % sizes[0]].add(unrank(k / sizes[0], sizes.drop_first()))
    }
}

pub open spec fn all_positive(sizes: Seq<int>) -> bool {
    forall|t: int| 0 <= t < sizes.len() ==> #[trigger] sizes[t] > 0
}

pub open spec fn as_ints(v: Seq<usize>) -> Seq<int> {
    v.map_values(|x: usize| x as int)
}

/// A valid index vector has a position in `0 .. product(sizes)`.
proof fn lemma_rank_bounds(idx: Seq<int>, sizes: Seq<int>)
    requires
        valid_index(idx, sizes),
    ensures
        0 <= rank(idx, sizes) < product(sizes),
    decreases idx.len(),
{
    if idx.len() > 0 {
        let rest = idx.drop_first();
        let srest = sizes.drop_first();
        assert(valid_index(rest, srest)) by {
            assert forall|t: int| 0 <= t < rest.len() implies 0 <= #[trigger] rest[t] < srest[t] by {
                assert(idx[t + 1] == rest[t]);
            }
        }
        lemma_rank_bounds(rest, srest);
        let r = rank(rest, srest);
        let p = product(srest);
        let s = sizes[0];
        let d = idx[0];
        assert(0 <= d < s);
        assert(0 <= d + s * r < s * p) by (nonlinear_arith)
            requires
                0 <= d < s,
                0 <= r < p,
        ;
    }
}

/// Distinct valid index vectors have distinct positions.
proof fn lemma_rank_injective(v: Seq<int>, w: Seq<int>, sizes: Seq<int>)
    requires
        valid_index(v, sizes),
        valid_index(w, sizes),
        rank(v, sizes) == rank(w, sizes),
    ensures
        v == w,
    decreases v.len(),
{
    if v.len() > 0 {
        let sr = sizes.drop_first();
        let (v1, w1) = (v.drop_first(), w.drop_first());
        assert(valid_index(v1, sr)) by {
            assert forall|t: int| 0 <= t < v1.len() implies 0 <= #[trigger] v1[t] < sr[t] by {
                assert(v[t + 1] == v1[t]);
            }
        }
        assert(valid_index(w1, sr)) by {
            assert forall|t: int| 0 <= t < w1.len() implies 0 <= #[trigger] w1[t] < sr[t] by {
                assert(w[t + 1] == w1[t]);
            }
        }
        lemma_rank_bounds(v1, sr);
        lemma_rank_bounds(w1, sr);
        let (a, b, x, y, s) = (v[0], w[0], rank(v1, sr), rank(w1, sr), sizes[0]);
        assert(0 <= a < s && 0 <= b < s);
        assert(a == b && x == y) by (nonlinear_arith)
            requires
                0 <= a < s,
                0 <= b < s,
                0 <= x,
                0 <= y,
                a + s * x == b + s * y,
        {
            if x < y {
                assert(s * x + s <= s * y);
            } else if y < x {
                assert(s * y + s <= s * x);
            }
        }
        lemma_rank_injective(v1, w1, sr);
        assert(v =~= seq![v[0]].add(v1));
        assert(w =~= seq![w[0]].add(w1));
    }
}

/// `unrank` inverts `rank` on the positions of the enumeration.
proof fn lemma_unrank(k: int, sizes: Seq<int>)
    requires
        all_positive(sizes),
        0 <= k < product(sizes),
    ensures
        valid_index(unrank(k, sizes), sizes),
        rank(unrank(k, sizes), sizes) == k,
    decreases sizes.len(),
{
    if sizes.len() > 0 {
        let s = sizes[0];
        let sr = sizes.drop_first();
        assert(s > 0);
        assert forall|t: int| 0 <= t < sr.len() implies #[trigger] sr[t] > 0 by {
            assert(sizes[t + 1] == sr[t]);
        }
        let p = product(sr);
        let q = k / s;
        let m = k % s;
        assert(k == s * q + m && 0 <= m < s && 0 <= q < p) by (nonlinear_arith)
            requires
                s > 0,
                0 <= k < s * p,
                q == k / s,
                m == k % s,
        {
            assert(k == s * q + m && 0 <= m < s) by (nonlinear_arith)
                requires
                    s > 0,
                    q == k / s,
                    m == k % s,
            ;
            if q >= p {
                assert(s * q >= s * p) by (nonlinear_arith)
                    requires
                        s > 0,
                        q >= p,
                ;
            }
        }
        lemma_unrank(q, sr);
        let u = unrank(k, sizes);
        let ur = unrank(q, sr);
        assert(u =~= seq![m].add(ur));
        assert(u.drop_first() =~= ur);
        assert forall|t: int| 0 <= t < u.len() implies 0 <= #[trigger] u[t] < sizes[t] by {
            if t > 0 {
                assert(u[t] == ur[t - 1]);
                assert(sizes[t] == sr[t - 1]);
            }
        }
    }
}

/// Every combination of one variant per tag is enumerated exactly once: the
/// positions `0 .. product(sizes)` and the valid index vectors correspond one
/// to one, through `unrank` and `rank`.
pub proof fn lemma_each_combination_once(sizes: Seq<int>)
    requires
        all_positive(sizes),
    ensures
        forall|k: int|
            0 <= k < product(sizes) ==> valid_index(#[trigger] unrank(k, sizes), sizes) && rank(
                unrank(k, sizes),
                sizes,
            ) == k,
        forall|idx: Seq<int>|
            #[trigger] valid_index(idx, sizes) ==> 0 <= rank(idx, sizes) < product(sizes) && unrank(
                rank(idx, sizes),
                sizes,
            ) == idx,
        forall|j: int, k: int|
            0 <= j < product(sizes) && 0 <= k < product(sizes) && j != k ==> #[trigger] unrank(
                j,
                sizes,
            ) != #[trigger] unrank(k, sizes),
{
    assert forall|k: int| 0 <= k < product(sizes) implies valid_index(
        #[trigger] unrank(k, sizes),
        sizes,
    ) && rank(unrank(k, sizes), sizes) == k by {
        lemma_unrank(k, sizes);
    }
    assert forall|idx: Seq<int>| #[trigger] valid_index(idx, sizes) implies 0 <= rank(idx, sizes)
        < product(sizes) && unrank(rank(idx, sizes), sizes) == idx by {
        lemma_rank_bounds(idx, sizes);
        lemma_unrank(rank(idx, sizes), sizes);
        lemma_rank_injective(unrank(rank(idx, sizes), sizes), idx, sizes);
    }
}

proof fn lemma_product_zero(sizes: Seq<int>, t: int)
    requires
        0 <= t < sizes.len(),
        sizes[t] == 0,
    ensures
        product(sizes) == 0,
    decreases sizes.len(),
{
    if t > 0 {
        assert(sizes.drop_first()[t - 1] == sizes[t]);
        lemma_product_zero(sizes.drop_first(), t - 1);
    }
}

/// Incrementing the lowest digit that is not at its maximum, and clearing
/// the ones below it, moves one position forward.
proof fn lemma_carry(v: Seq<int>, w: Seq<int>, sizes: Seq<int>, i: int)
    requires
        valid_index(v, sizes),
        w.len() == v.len(),
        0 <= i < v.len(),
        forall|t: int| 0 <= t < i ==> #[trigger] v[t] == sizes[t] - 1 && w[t] == 0,
        w[i] == v[i] + 1,
        forall|t: int| i < t < v.len() ==> #[trigger] w[t] == v[t],
    ensures
        rank(w, sizes) == rank(v, sizes) + 1,
    decreases i,
{
    let (v1, w1, s1) = (v.drop_first(), w.drop_first(), sizes.drop_first());
    if i == 0 {
        assert(v1 =~= w1);
    } else {
        assert(valid_index(v1, s1)) by {
            assert forall|t: int| 0 <= t < v1.len() implies 0 <= #[trigger] v1[t] < s1[t] by {
                assert(v[t + 1] == v1[t]);
            }
        }
        assert forall|t: int| 0 <= t < i - 1 implies #[trigger] v1[t] == s1[t] - 1 && w1[t]
            == 0 by {
            assert(v[t + 1] == v1[t] && w[t + 1] == w1[t] && sizes[t + 1] == s1[t]);
        }
        assert forall|t: int| i - 1 < t < v1.len() implies #[trigger] w1[t] == v1[t] by {
            assert(v[t + 1] == v1[t] && w[t + 1] == w1[t]);
        }
        lemma_carry(v1, w1, s1, i - 1);
        assert(v[0] == sizes[0] - 1 && w[0] == 0);
        let (s, x) = (sizes[0], rank(v1, s1));
        assert(s * (x + 1) == s * x + s) by (nonlinear_arith);
    }
}

/// The last index vector, every digit at its maximum, stands at the last position.
proof fn lemma_all_max(v: Seq<int>, sizes: Seq<int>)
    requires
        v.len() == sizes.len(),
        forall|t: int| 0 <= t < v.len() ==> #[trigger] v[t] == sizes[t] - 1,
    ensures
        rank(v, sizes) == product(sizes) - 1,
    decreases v.len(),
{
    if v.len() > 0 {
        let (v1, s1) = (v.drop_first(), sizes.drop_first());
        assert forall|t: int| 0 <= t < v1.len() implies #[trigger] v1[t] == s1[t] - 1 by {
            assert(v[t + 1] == v1[t] && sizes[t + 1] == s1[t]);
        }
        lemma_all_max(v1, s1);
        assert(v[0] == sizes[0] - 1);
        let (s, p) = (sizes[0], product(s1));
        assert((s - 1) + s * (p - 1) == s * p - 1) by (nonlinear_arith);
    }
}

proof fn lemma_zeros_rank(v: Seq<int>, sizes: Seq<int>)
    requires
        forall|t: int| 0 <= t < v.len() ==> #[trigger] v[t] == 0,
    ensures
        rank(v, sizes) == 0,
    decreases v.len(),
{
    if v.len() > 0 && sizes.len() > 0 {
        let v1 = v.drop_first();
        assert forall|t: int| 0 <= t < v1.len() implies #[trigger] v1[t] == 0 by {
            assert(v[t + 1] == v1[t]);
        }
        lemma_zeros_rank(v1, sizes.drop_first());
        assert(v[0] == 0);
        let s = sizes[0];
        assert(s * 0 == 0) by (nonlinear_arith);
    }
}

// ---------------------------------------------------------------------------
// Tag sets
// ---------------------------------------------------------------------------
/// A tag map as a sequence of (tag, variant) pairs; the first entry of a tag wins.
pub open spec fn lookup(tags: Seq<(Seq<char>, Seq<char>)>, name: Seq<char>) -> Option<Seq<char>>
    decreases tags.len(),
{
    if tags.len() == 0 {
        None
    } else if tags[0].0 == name {
        Some(tags[0].1)
    } else {
        lookup(tags.drop_first(), name)
    }
}

/// One value for each tag: the substitution applied to a template.
pub struct TagSet {
    map: Vec<(String, String)>,
}

impl View for TagSet {
    type V = Seq<(Seq<char>, Seq<char>)>;

    closed spec fn view(&self) -> Seq<(Seq<char>, Seq<char>)> {
        self.map@.map_values(|p: (String, String)| (p.0@, p.1@))
    }
}

impl TagSet {
    /// Builds a tag set from (tag, value) pairs.
    pub fn new(map: Vec<(String, String)>) -> (r: TagSet)
        ensures
            r@ == map@.map_values(|p: (String, String)| (p.0@, p.1@)),
    {
        TagSet { map }
    }

    /// The value of the tag `name`, if the set has one.
    pub fn get(&self, name: &str) -> (r: Option<String>)
        ensures
            match r {
                Some(v) => lookup(self@, name@) == Some(v@),
                None => lookup(self@, name@) is None,
            },
    {
        let key = name.to_owned();
        let mut i: usize = 0;
        assert(self@.subrange(0, self@.len() as int) =~= self@);
        while i < self.map.len()
            invariant
                key@ == name@,
                0 <= i <= self.map.len(),
                lookup(self@, name@) == lookup(self@.subrange(i as int, self@.len() as int), name@),
            decreases self.map.len() - i,
        {
            let ghost rest = self@.subrange(i as int, self@.len() as int);
            assert(rest.drop_first() =~= self@.subrange(i + 1, self@.len() as int));
            if self.map[i].0 == key {
                return Some(self.map[i].1.clone());
            }
            i += 1;
        }
        None
    }
}

// ---------------------------------------------------------------------------
// Combinations of variants
// ---------------------------------------------------------------------------
/// The tags with their variants, as plain sequences.
pub type FieldView = Seq<(Seq<char>, Seq<Seq<char>>)>;

pub open spec fn field_view_of(field: Seq<(String, Vec<String>)>) -> FieldView {
    field.map_values(|p: (String, Vec<String>)| (p.0@, p.1@.map_values(|s: String| s@)))
}

/// How many variants each tag has.
pub open spec fn sizes_of(field: FieldView) -> Seq<int> {
    field.map_values(|p: (Seq<char>, Seq<Seq<char>>)| p.1.len() as int)
}

/// The tag set chosen by an index vector.
pub open spec fn tagset_at(field: FieldView, idx: Seq<int>) -> Seq<(Seq<char>, Seq<char>)> {
    Seq::new(field.len(), |t: int| (field[t].0, field[t].1[idx[t]]))
}

/// The number of tag sets that a field yields in all.
pub open spec fn combinations(field: FieldView) -> int {
    product(sizes_of(field))
}

/// No tag is listed twice: the field is a mapping from tags to variants.
pub open spec fn distinct_tags(field: FieldView) -> bool {
    forall|i: int, j: int| 0 <= i < j < field.len() ==> field[i].0 != field[j].0
}

/// Whether no tag is listed twice.
pub fn tags_are_distinct(field: &Vec<(String, Vec<String>)>) -> (r: bool)
    ensures
        r == distinct_tags(field_view_of(field@)),
{
    let ghost fv = field_view_of(field@);
    let mut i: usize = 0;
    while i < field.len()
        invariant
            fv == field_view_of(field@),
            0 <= i <= field.len(),
            forall|a: int, b: int| 0 <= a < b < fv.len() && a < i ==> fv[a].0 != fv[b].0,
        decreases field.len() - i,
    {
        let mut j: usize = i + 1;
        while j < field.len()
            invariant
                fv == field_view_of(field@),
                0 <= i < field.len(),
                i + 1 <= j <= field.len(),
                forall|a: int, b: int| 0 <= a < b < fv.len() && a < i ==> fv[a].0 != fv[b].0,
                forall|b: int| i < b < j ==> fv[i as int].0 != #[trigger] fv[b].0,
            decreases field.len() - j,
        {
            if field[i].0 == field[j].0 {
                assert(fv[i as int].0 == fv[j as int].0);
                return false;
            }
            j += 1;
        }
        i += 1;
    }
    true
}

proof fn lemma_lookup_absent(tags: Seq<(Seq<char>, Seq<char>)>, name: Seq<char>)
    requires
        forall|k: int| 0 <= k < tags.len() ==> #[trigger] tags[k].0 != name,
    ensures
        lookup(tags, name) is None,
    decreases tags.len(),
{
    if tags.len() > 0 {
        assert(tags[0].0 != name);
        assert forall|k: int| 0 <= k < tags.drop_first().len() implies #[trigger] tags.drop_first()[k].0
            != name by {
            assert(tags[k + 1].0 != name);
        }
        lemma_lookup_absent(tags.drop_first(), name);
    }
}

proof fn lemma_lookup_present(tags: Seq<(Seq<char>, Seq<char>)>, t: int)
    requires
        0 <= t < tags.len(),
        forall|i: int, j: int| 0 <= i < j < tags.len() ==> tags[i].0 != tags[j].0,
    ensures
        lookup(tags, tags[t].0) == Some(tags[t].1),
    decreases t,
{
    if t > 0 {
        let rest = tags.drop_first();
        assert(tags[0].0 != tags[t].0);
        assert(rest[t - 1] == tags[t]);
        assert forall|i: int, j: int| 0 <= i < j < rest.len() implies rest[i].0 != rest[j].0 by {
            assert(rest[i] == tags[i + 1] && rest[j] == tags[j + 1]);
        }
        lemma_lookup_present(rest, t - 1);
    }
}

/// In the tag set that an index vector chooses, each tag of a field whose
/// tags are distinct stands for the variant chosen for it, and a name that
/// is no tag of the field is unknown.
pub proof fn lemma_tagset_lookup(field: FieldView, idx: Seq<int>, name: Seq<char>)
    requires
        distinct_tags(field),
        valid_index(idx, sizes_of(field)),
    ensures
        forall|t: int|
            0 <= t < field.len() ==> lookup(tagset_at(field, idx), #[trigger] field[t].0) == Some(
                field[t].1[idx[t]],
            ),
        (forall|k: int| 0 <= k < field.len() ==> #[trigger] field[k].0 != name) ==> lookup(
            tagset_at(field, idx),
            name,
        ) is None,
{
    let ts = tagset_at(field, idx);
    assert forall|t: int| 0 <= t < field.len() implies lookup(ts, #[trigger] field[t].0) == Some(
        field[t].1[idx[t]],
    ) by {
        assert forall|i: int, j: int| 0 <= i < j < ts.len() implies ts[i].0 != ts[j].0 by {}
        lemma_lookup_present(ts, t);
    }
    if forall|k: int| 0 <= k < field.len() ==> #[trigger] field[k].0 != name {
        assert forall|k: int| 0 <= k < ts.len() implies #[trigger] ts[k].0 != name by {
            assert(ts[k].0 == field[k].0);
        }
        lemma_lookup_absent(ts, name);
    }
}

fn clone_strings(v: &Vec<String>) -> (r: Vec<String>)
    ensures
        r@.map_values(|s: String| s@) == v@.map_values(|s: String| s@),
{
    let mut out: Vec<String> = Vec::new();
    let mut i: usize = 0;
    while i < v.len()
        invariant
            0 <= i <= v.len(),
            out.len() == i,
            forall|k: int| 0 <= k < i ==> (#[trigger] out[k])@ == v[k]@,
        decreases v.len() - i,
    {
        out.push(v[i].clone());
        i += 1;
    }
    assert(out@.map_values(|s: String| s@) =~= v@.map_values(|s: String| s@));
    out
}

/// A copy of a list of tags with their variants.
pub fn clone_field(field: &Vec<(String, Vec<String>)>) -> (r: Vec<(String, Vec<String>)>)
    ensures
        field_view_of(r@) == field_view_of(field@),
{
    let mut out: Vec<(String, Vec<String>)> = Vec::new();
    let mut i: usize = 0;
    while i < field.len()
        invariant
            0 <= i <= field.len(),
            out.len() == i,
            forall|k: int| 0 <= k < i ==> field_view_of(out@)[k] == field_view_of(field@)[k],
        decreases field.len() - i,
    {
        let entry = (field[i].0.clone(), clone_strings(&field[i].1));
        out.push(entry);
        proof {
            assert forall|k: int| 0 <= k < i + 1 implies field_view_of(out@)[k] == field_view_of(
                field@,
            )[k] by {
                if k < i {
                    assert(field_view_of(out@)[k] == field_view_of(out@.drop_last())[k]);
                }
            }
        }
        i += 1;
    }
    assert(field_view_of(out@) =~= field_view_of(field@));
    out
}

/// An iterator over all combinations of the variants of a list of tags.
pub struct TagFieldIter {
    field: Vec<(String, Vec<String>)>,
    index: Option<Vec<usize>>,
}

impl TagFieldIter {
    /// The tags and their variants.
    pub closed spec fn field(&self) -> FieldView {
        field_view_of(self.field@)
    }

    /// How many tag sets have been produced so far.
    pub closed spec fn position(&self) -> int {
        match self.index {
            Some(v) => rank(as_ints(v@), sizes_of(self.field())),
            None => combinations(self.field()),
        }
    }

    pub closed spec fn wf(&self) -> bool {
        match self.index {
            Some(v) => all_positive(sizes_of(self.field())) && valid_index(
                as_ints(v@),
                sizes_of(self.field()),
            ),
            None => true,
        }
    }

    /// Starts the enumeration of the combinations of `field`, in which a tag
    /// is listed with its variants.
    pub fn new(field: Vec<(String, Vec<String>)>) -> (r: TagFieldIter)
        requires
            distinct_tags(field_view_of(field@)),
        ensures
            r.wf(),
            r.field() == field_view_of(field@),
            r.position() == 0,
    {
        let n = field.len();
        let mut index: Vec<usize> = Vec::new();
        let mut any_empty = false;
        let mut i: usize = 0;
        let ghost sizes = sizes_of(field_view_of(field@));
        while i < n
            invariant
                n == field.len(),
                sizes == sizes_of(field_view_of(field@)),
                0 <= i <= n,
                index.len() == i,
                forall|t: int| 0 <= t < i ==> #[trigger] index[t] == 0,
                any_empty <==> exists|t: int| 0 <= t < i && #[trigger] sizes[t] == 0,
            decreases n - i,
        {
            assert(sizes[i as int] == field[i as int].1.len());
            if field[i].1.len() == 0 {
                any_empty = true;
            }
            index.push(0);
            i += 1;
        }
        let r = if any_empty {
            TagFieldIter { field, index: None }
        } else {
            TagFieldIter { field, index: Some(index) }
        };
        proof {
            if any_empty {
                let t = choose|t: int| 0 <= t < n && #[trigger] sizes[t] == 0;
                lemma_product_zero(sizes, t);
            } else {
                assert forall|t: int| 0 <= t < sizes.len() implies #[trigger] sizes[t] > 0 by {
                    assert(sizes[t] == field[t].1.len());
                    if sizes[t] == 0 {
                        assert(exists|t: int| 0 <= t < i && #[trigger] sizes[t] == 0);
                    }
                }
                lemma_zeros_rank(as_ints(index@), sizes);
            }
        }
        r
    }

    /// The index vector after the current one, or `None` after the last.
    fn next_index(&self) -> (r: Option<Vec<usize>>)
        requires
            self.wf(),
        ensures
            match self.index {
                None => r is None,
                Some(v) => {
                    let sizes = sizes_of(self.field());
                    if rank(as_ints(v@), sizes) + 1 < product(sizes) {
                        r matches Some(w) && valid_index(as_ints(w@), sizes) && rank(
                            as_ints(w@),
                            sizes,
                        ) == rank(as_ints(v@), sizes) + 1
                    } else {
                        r is None
                    }
                },
            },
    {
        match &self.index {
            None => None,
            Some(cur) => {
                let ghost sizes = sizes_of(self.field());
                let ghost v = as_ints(cur@);
                let n = cur.len();
                let mut next: Vec<usize> = Vec::new();
                let mut j: usize = 0;
                while j < n
                    invariant
                        n == cur.len(),
                        0 <= j <= n,
                        next.len() == j,
                        forall|t: int| 0 <= t < j ==> #[trigger] next[t] == cur[t],
                    decreases n - j,
                {
                    next.push(cur[j]);
                    j += 1;
                }
                proof {
                    lemma_rank_bounds(v, sizes);
                }
                let mut i: usize = 0;
                while i < n
                    invariant
                        self.index == Some(*cur),
                        n == cur.len(),
                        n == self.field.len(),
                        sizes == sizes_of(self.field()),
                        v == as_ints(cur@),
                        valid_index(v, sizes),
                        0 <= rank(v, sizes) < product(sizes),
                        0 <= i <= n,
                        next.len() == n,
                        forall|t: int| 0 <= t < i ==> #[trigger] v[t] == sizes[t] - 1 && next[t] == 0,
                        forall|t: int| i <= t < n ==> #[trigger] next[t] == cur[t],
                    decreases n - i,
                {
                    assert(sizes[i as int] == self.field[i as int].1.len());
                    assert(v[i as int] == cur[i as int]);
                    let bumped = next[i] + 1;
                    if bumped == self.field[i].1.len() {
                        next.set(i, 0);
                    } else {
                        next.set(i, bumped);
                        proof {
                            let w = as_ints(next@);
                            assert forall|t: int| 0 <= t < i implies #[trigger] v[t] == sizes[t]
                                - 1 && w[t] == 0 by {
                                assert(v[t] == sizes[t] - 1);
                                assert(next@[t] == 0);
                                assert(w[t] == next@[t] as int);
                            }
                            assert forall|t: int| i < t < v.len() implies #[trigger] w[t]
                                == v[t] by {
                                assert(w[t] == next@[t] as int);
                                assert(v[t] == cur@[t] as int);
                            }
                            lemma_carry(v, w, sizes, i as int);
                            assert(valid_index(w, sizes)) by {
                                assert forall|t: int| 0 <= t < w.len() implies 0 <= #[trigger] w[t]
                                    < sizes[t] by {
                                    assert(v[t] == cur[t]);
                                }
                            }
                            lemma_rank_bounds(w, sizes);
                        }
                        return Some(next);
                    }
                    i += 1;
                }
                proof {
                    lemma_all_max(v, sizes);
                }
                None
            },
        }
    }

    /// The tag set chosen by the current index vector.
    fn next_tagset(&self) -> (r: Option<TagSet>)
        requires
            self.wf(),
        ensures
            match self.index {
                None => r is None,
                Some(v) => r matches Some(ts) && ts@ == tagset_at(self.field(), as_ints(v@)),
            },
    {
        match &self.index {
            None => None,
            Some(idx) => {
                let ghost fv = self.field();
                let ghost sizes = sizes_of(fv);
                let mut map: Vec<(String, String)> = Vec::new();
                let mut t: usize = 0;
                while t < idx.len()
                    invariant
                        fv == self.field(),
                        sizes == sizes_of(fv),
                        valid_index(as_ints(idx@), sizes),
                        idx.len() == self.field.len(),
                        0 <= t <= idx.len(),
                        map.len() == t,
                        forall|k: int|
                            0 <= k < t ==> (#[trigger] map[k]).0@ == fv[k].0 && map[k].1@
                                == fv[k].1[idx[k] as int],
                    decreases idx.len() - t,
                {
                    assert(as_ints(idx@)[t as int] < sizes[t as int]);
                    let tag = self.field[t].0.clone();
                    let value = self.field[t].1[idx[t]].clone();
                    map.push((tag, value));
                    t += 1;
                }
                let ts = TagSet::new(map);
                assert(ts@ =~= tagset_at(fv, as_ints(idx@)));
                Some(ts)
            },
        }
    }

    /// Produces the next combination, or `None` once all have been produced.
    pub fn next(&mut self) -> (r: Option<TagSet>)
        requires
            old(self).wf(),
        ensures
            final(self).wf(),
            final(self).position() <= combinations(final(self).field()),
            final(self).field() == old(self).field(),
            old(self).position() < combinations(old(self).field()) ==> final(self).position()
                == old(self).position() + 1 && (r matches Some(ts) && ts@ == tagset_at(
                old(self).field(),
                unrank(old(self).position(), sizes_of(old(self).field())),
            )),
            old(self).position() >= combinations(old(self).field()) ==> final(self).position()
                == old(self).position() && r is None,
    {
        proof {
            if let Some(v) = &self.index {
                let sizes = sizes_of(self.field());
                lemma_each_combination_once(sizes);
                assert(valid_index(as_ints(v@), sizes));
            }
        }
        let next = self.next_tagset();
        self.index = self.next_index();
        proof {
            self.lemma_position_bound();
        }
        next
    }

    /// Produces all remaining combinations, in order.
    pub fn collect_all(&mut self) -> (r: Vec<TagSet>)
        requires
            old(self).wf(),
        ensures
            final(self).wf(),
            final(self).field() == old(self).field(),
            r.len() == combinations(old(self).field()) - old(self).position(),
            forall|k: int|
                0 <= k < r.len() ==> (#[trigger] r[k])@ == tagset_at(
                    old(self).field(),
                    unrank(old(self).position() + k, sizes_of(old(self).field())),
                ),
    {
        let ghost start = self.position();
        let ghost fv = self.field();
        let mut out: Vec<TagSet> = Vec::new();
        proof {
            self.lemma_position_bound();
        }
        loop
            invariant
                self.wf(),
                fv == old(self).field(),
                start == old(self).position(),
                self.field() == fv,
                self.position() == start + out.len(),
                self.position() <= combinations(fv),
                forall|k: int|
                    0 <= k < out.len() ==> (#[trigger] out[k])@ == tagset_at(
                        fv,
                        unrank(start + k, sizes_of(fv)),
                    ),
            decreases combinations(fv) - self.position(),
        {
            match self.next() {
                Some(ts) => {
                    out.push(ts);
                },
                None => {
                    return out;
                },
            }
        }
    }

    /// A well-formed iterator has produced at most all combinations.
    pub proof fn lemma_position_bound(&self)
        requires
            self.wf(),
        ensures
            self.position() <= combinations(self.field()),
    {
        if let Some(v) = &self.index {
            lemma_rank_bounds(as_ints(v@), sizes_of(self.field()));
        }
    }
}

// ---------------------------------------------------------------------------
// Template expansion
// ---------------------------------------------------------------------------
/// Characters that may form a tag name.
pub open spec fn is_tag_char(c: char) -> bool {
    ('a' <= c && c <= 'z') || ('A' <= c && c <= 'Z') || ('0' <= c && c <= '9') || c == '-' || c
        == '_'
}

/// End of the run of tag characters that starts at `j`.
pub open spec fn tag_end(t: Seq<char>, j: int) -> int
    decreases t.len() - j,
{
    if 0 <= j < t.len() && is_tag_char(t[j]) {
        tag_end(t, j + 1)
    } else {
        j
    }
}

/// A tag reference starts at `i`: a `$` followed by a tag character.
pub open spec fn starts_tag(t: Seq<char>, i: int) -> bool {
    0 <= i && i + 1 < t.len() && t[i] == '$' && is_tag_char(t[i + 1])
}

/// What a tag reference becomes: the tag's value, or the reference itself
/// when the tag is unknown.
pub open spec fn substitute(tags: Seq<(Seq<char>, Seq<char>)>, name: Seq<char>) -> Seq<char> {
    match lookup(tags, name) {
        Some(v) => v,
        None => seq!['$'].add(name),
    }
}

/// Expansion of the template from position `i` on. A reference takes the
/// longest run of tag characters after its `$`.
pub open spec fn expand_from(t: Seq<char>, i: int, tags: Seq<(Seq<char>, Seq<char>)>) -> Seq<char>
    decreases t.len() - i,
{
    if i < 0 || i >= t.len() {
        Seq::empty()
    } else if starts_tag(t, i) {
        let e = tag_end(t, i + 1);
        if i < e <= t.len() {
            substitute(tags, t.subrange(i + 1, e)).add(expand_from(t, e, tags))
        } else {
            Seq::empty()
        }
    } else {
        seq![t[i]].add(expand_from(t, i + 1, tags))
    }
}

/// The template `t` with every tag reference substituted.
pub open spec fn expand(t: Seq<char>, tags: Seq<(Seq<char>, Seq<char>)>) -> Seq<char> {
    expand_from(t, 0, tags)
}

proof fn lemma_tag_end_bounds(t: Seq<char>, j: int)
    requires
        0 <= j <= t.len(),
    ensures
        j <= tag_end(t, j) <= t.len(),
        forall|k: int| j <= k < tag_end(t, j) ==> is_tag_char(#[trigger] t[k]),
    decreases t.len() - j,
{
    if j < t.len() && is_tag_char(t[j]) {
        lemma_tag_end_bounds(t, j + 1);
    }
}

proof fn lemma_lookup_push(
    tags: Seq<(Seq<char>, Seq<char>)>,
    x: (Seq<char>, Seq<char>),
    name: Seq<char>,
)
    ensures
        lookup(tags.push(x), name) == match lookup(tags, name) {
            Some(v) => Some(v),
            None => if x.0 == name {
                Some(x.1)
            } else {
                None
            },
        },
    decreases tags.len(),
{
    if tags.len() > 0 {
        assert(tags.push(x).drop_first() =~= tags.drop_first().push(x));
        assert(tags.push(x)[0] == tags[0]);
        lemma_lookup_push(tags.drop_first(), x, name);
    } else {
        assert(tags.push(x).drop_first() =~= Seq::<(Seq<char>, Seq<char>)>::empty());
        assert(tags.push(x)[0] == x);
        assert(lookup(Seq::<(Seq<char>, Seq<char>)>::empty(), name) is None);
    }
}

proof fn lemma_unknown_from(
    t: Seq<char>,
    i: int,
    tags: Seq<(Seq<char>, Seq<char>)>,
    name: Seq<char>,
)
    requires
        lookup(tags, name) is None,
    ensures
        expand_from(t, i, tags) == expand_from(t, i, tags.push((name, seq!['$'].add(name)))),
    decreases t.len() - i,
{
    let more = tags.push((name, seq!['$'].add(name)));
    if 0 <= i < t.len() {
        if starts_tag(t, i) {
            let e = tag_end(t, i + 1);
            if i < e <= t.len() {
                lemma_lookup_push(tags, (name, seq!['$'].add(name)), t.subrange(i + 1, e));
                lemma_unknown_from(t, e, tags, name);
            }
        } else {
            lemma_unknown_from(t, i + 1, tags, name);
        }
    }
}

/// A reference to a tag that the set does not know passes through verbatim:
/// expanding with the set is the same as expanding with the set extended by
/// the mapping of that tag to its own reference `$name`.
pub proof fn lemma_unknown_tag_verbatim(
    t: Seq<char>,
    tags: Seq<(Seq<char>, Seq<char>)>,
    name: Seq<char>,
)
    requires
        lookup(tags, name) is None,
    ensures
        expand(t, tags) == expand(t, tags.push((name, seq!['$'].add(name)))),
{
    lemma_unknown_from(t, 0, tags, name);
}

/// The scan of a template stops at every `$`: a `$` never stands inside a
/// tag reference, so the expansion from `j` ends with the expansion from `i`.
proof fn lemma_scan_reaches(t: Seq<char>, j: int, i: int, tags: Seq<(Seq<char>, Seq<char>)>)
    requires
        0 <= j <= i < t.len(),
        t[i] == '$',
    ensures
        exists|p: Seq<char>| expand_from(t, j, tags) == p.add(expand_from(t, i, tags)),
    decreases i - j,
{
    if j == i {
        assert(expand_from(t, j, tags) == Seq::<char>::empty().add(expand_from(t, i, tags)));
    } else if starts_tag(t, j) {
        let e = tag_end(t, j + 1);
        lemma_tag_end_bounds(t, j + 1);
        if i < e {
            assert(is_tag_char(t[i]));
        }
        lemma_scan_reaches(t, e, i, tags);
        let p = choose|p: Seq<char>| expand_from(t, e, tags) == p.add(expand_from(t, i, tags));
        let head = substitute(tags, t.subrange(j + 1, e));
        assert(expand_from(t, j, tags) =~= head.add(p).add(expand_from(t, i, tags)));
    } else {
        lemma_scan_reaches(t, j + 1, i, tags);
        let p = choose|p: Seq<char>| expand_from(t, j + 1, tags) == p.add(expand_from(t, i, tags));
        assert(expand_from(t, j, tags) =~= seq![t[j]].add(p).add(expand_from(t, i, tags)));
    }
}

/// An unknown tag reference appears verbatim in the expansion: where `$name`
/// stands in the template, with `name` the longest run of tag characters
/// and no tag of the set, the expansion holds `$name` too.
pub proof fn lemma_unknown_tag_appears(
    t: Seq<char>,
    tags: Seq<(Seq<char>, Seq<char>)>,
    i: int,
)
    requires
        starts_tag(t, i),
        lookup(tags, t.subrange(i + 1, tag_end(t, i + 1))) is None,
    ensures
        exists|k: int|
            0 <= k && k + (tag_end(t, i + 1) - i) <= expand(t, tags).len() && #[trigger] expand(
                t,
                tags,
            ).subrange(k, k + (tag_end(t, i + 1) - i)) == t.subrange(i, tag_end(t, i + 1)),
{
    let e = tag_end(t, i + 1);
    lemma_tag_end_bounds(t, i + 1);
    lemma_scan_reaches(t, 0, i, tags);
    let p = choose|p: Seq<char>| expand_from(t, 0, tags) == p.add(expand_from(t, i, tags));
    let lit = t.subrange(i, e);
    assert(seq!['$'].add(t.subrange(i + 1, e)) =~= lit);
    let x = expand(t, tags);
    assert(x == p.add(lit).add(expand_from(t, e, tags)));
    assert(x.subrange(p.len() as int, p.len() + (e - i)) =~= lit);
}

/// Every pair that a mux over distinct tags produces keeps, verbatim, each
/// reference in the template to a name that is no tag of the field.
pub proof fn lemma_pair_keeps_unknown_tag(field: FieldView, idx: Seq<int>, t: Seq<char>, i: int)
    requires
        distinct_tags(field),
        valid_index(idx, sizes_of(field)),
        starts_tag(t, i),
        forall|k: int| 0 <= k < field.len() ==> #[trigger] field[k].0 != t.subrange(i + 1, tag_end(t, i + 1)),
    ensures
        exists|k: int|
            0 <= k && k + (tag_end(t, i + 1) - i) <= expand(t, tagset_at(field, idx)).len()
                && #[trigger] expand(t, tagset_at(field, idx)).subrange(k, k + (tag_end(t, i + 1) - i))
                == t.subrange(i, tag_end(t, i + 1)),
{
    lemma_tagset_lookup(field, idx, t.subrange(i + 1, tag_end(t, i + 1)));
    lemma_unknown_tag_appears(t, tagset_at(field, idx), i);
}

proof fn lemma_empty_set_from(t: Seq<char>, i: int)
    requires
        0 <= i <= t.len(),
    ensures
        expand_from(t, i, Seq::empty()) == t.subrange(i, t.len() as int),
    decreases t.len() - i,
{
    if i < t.len() {
        if starts_tag(t, i) {
            let e = tag_end(t, i + 1);
            lemma_tag_end_bounds(t, i + 1);
            lemma_empty_set_from(t, e);
            assert(seq!['$'].add(t.subrange(i + 1, e)).add(t.subrange(e, t.len() as int))
                =~= t.subrange(i, t.len() as int));
        } else {
            lemma_empty_set_from(t, i + 1);
            assert(seq![t[i]].add(t.subrange(i + 1, t.len() as int)) =~= t.subrange(
                i,
                t.len() as int,
            ));
        }
    }
}

/// With no known tags a template is left exactly as it is.
pub proof fn lemma_no_tags_verbatim(t: Seq<char>)
    ensures
        expand(t, Seq::empty()) == t,
{
    lemma_empty_set_from(t, 0);
    assert(t.subrange(0, t.len() as int) =~= t);
}

/// Whether `c` may be part of a tag name.
pub fn is_tag_char_exec(c: char) -> (r: bool)
    ensures
        r == is_tag_char(c),
{
    ('a' <= c && c <= 'z') || ('A' <= c && c <= 'Z') || ('0' <= c && c <= '9') || c == '-' || c
        == '_'
}

impl TagSet {
    /// Substitutes every `$tag` reference of `template` with the tag's
    /// value; references to tags outside the set are kept as written.
    pub fn expand(&self, template: &str) -> (r: String)
        ensures
            r@ == expand(template@, self@),
    {
        let ghost t = template@;
        let n = template.unicode_len();
        let mut out = String::new();
        let mut lit: usize = 0;
        let mut i: usize = 0;
        while i < n
            invariant
                t == template@,
                n == t.len(),
                lit <= i <= n,
                expand(t, self@) == out@.add(t.subrange(lit as int, i as int)).add(
                    expand_from(t, i as int, self@),
                ),
            decreases n - i,
        {
            let c = template.get_char(i);
            if c == '$' && i + 1 < n && is_tag_char_exec(template.get_char(i + 1)) {
                let mut e: usize = i + 1;
                while e < n && is_tag_char_exec(template.get_char(e))
                    invariant
                        t == template@,
                        n == t.len(),
                        i + 1 <= e <= n,
                        tag_end(t, i + 1) == tag_end(t, e as int),
                    decreases n - e,
                {
                    e += 1;
                }
                assert(tag_end(t, e as int) == e);
                let head = template.substring_char(lit, i);
                out.append(head);
                let name = template.substring_char(i + 1, e);
                match self.get(name) {
                    Some(v) => {
                        out.append(v.as_str());
                    },
                    None => {
                        let dollar = "$";
                        proof {
                            reveal_strlit("$");
                        }
                        out.append(dollar);
                        out.append(name);
                    },
                }
                assert(t.subrange(e as int, e as int) =~= Seq::<char>::empty());
                assert(out@.add(t.subrange(e as int, e as int)) =~= out@);
                i = e;
                lit = e;
            } else {
                assert(t.subrange(lit as int, i as int).add(seq![t[i as int]]) =~= t.subrange(
                    lit as int,
                    i + 1,
                ));
                i += 1;
            }
        }
        let tail = template.substring_char(lit, n);
        out.append(tail);
        assert(out@ =~= out@.add(Seq::<char>::empty()));
        out
    }
}

/// A generator of (source, destination) pairs: both templates expanded with
/// each combination of tag variants in turn.
pub struct UrlMux {
    src: String,
    dst: String,
    fields: TagFieldIter,
}

impl UrlMux {
    pub closed spec fn source(&self) -> Seq<char> {
        self.src@
    }

    pub closed spec fn destination(&self) -> Seq<char> {
        self.dst@
    }

    pub closed spec fn field(&self) -> FieldView {
        self.fields.field()
    }

    /// How many pairs have been produced so far.
    pub closed spec fn position(&self) -> int {
        self.fields.position()
    }

    pub closed spec fn wf(&self) -> bool {
        self.fields.wf()
    }

    /// The pair produced for the combination at position `k`.
    pub open spec fn pair_at(&self, k: int) -> (Seq<char>, Seq<char>) {
        let ts = tagset_at(self.field(), unrank(k, sizes_of(self.field())));
        (expand(self.source(), ts), expand(self.destination(), ts))
    }

    /// Creates a mux over the source and destination templates and the tags
    /// with their variants.
    pub fn new(src: &str, dst: &str, field: Vec<(String, Vec<String>)>) -> (r: UrlMux)
        requires
            distinct_tags(field_view_of(field@)),
        ensures
            r.wf(),
            r.source() == src@,
            r.destination() == dst@,
            r.field() == field_view_of(field@),
            r.position() == 0,
    {
        UrlMux { src: src.to_owned(), dst: dst.to_owned(), fields: TagFieldIter::new(field) }
    }

    /// The next pair, or `None` once every combination has been produced.
    pub fn next(&mut self) -> (r: Option<(String, String)>)
        requires
            old(self).wf(),
        ensures
            final(self).wf(),
            final(self).position() <= combinations(final(self).field()),
            final(self).source() == old(self).source(),
            final(self).destination() == old(self).destination(),
            final(self).field() == old(self).field(),
            old(self).position() < combinations(old(self).field()) ==> final(self).position()
                == old(self).position() + 1 && (r matches Some(p) && (p.0@, p.1@) == old(
                self,
            ).pair_at(old(self).position())),
            old(self).position() >= combinations(old(self).field()) ==> final(self).position()
                == old(self).position() && r is None,
    {
        match self.fields.next() {
            Some(ts) => Some((ts.expand(self.src.as_str()), ts.expand(self.dst.as_str()))),
            None => None,
        }
    }

    /// Produces all remaining pairs, in order.
    pub fn pairs(&mut self) -> (r: Vec<(String, String)>)
        requires
            old(self).wf(),
        ensures
            r.len() == combinations(old(self).field()) - old(self).position(),
            forall|k: int|
                0 <= k < r.len() ==> ((#[trigger] r[k]).0@, r[k].1@) == old(self).pair_at(
                    old(self).position() + k,
                ),
    {
        let ghost start = self.position();
        let mut out: Vec<(String, String)> = Vec::new();
        proof {
            self.fields.lemma_position_bound();
        }
        loop
            invariant
                self.wf(),
                start == old(self).position(),
                self.field() == old(self).field(),
                self.source() == old(self).source(),
                self.destination() == old(self).destination(),
                self.position() == start + out.len(),
                self.position() <= combinations(self.field()),
                forall|k: int|
                    0 <= k < out.len() ==> ((#[trigger] out[k]).0@, out[k].1@) == old(
                        self,
                    ).pair_at(start + k),
            decreases combinations(self.field()) - self.position(),
        {
            match self.next() {
                Some(p) => {
                    out.push(p);
                },
                None => {
                    return out;
                },
            }
        }
    }
}

} // verus!
