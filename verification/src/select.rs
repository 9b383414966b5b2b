//! The target data model and the fuzzy scorer.
//!
//! A [`Target`] is one selectable unit: a binary or example declared by a
//! manifest, or a test function found in source text.  Each target has a
//! display string, and the scorer ranks targets by how well that string
//! matches a pattern, with a deterministic tie-break: ascending match score
//! first, and descending lexicographic display string among equal scores.
//! Callers that want the best match take the *last* element of the ranked
//! list; that inversion is deliberate, so the best match sits next to the
//! input line at the bottom of the screen.

use vstd::prelude::*;
use vstd::string::StrSliceExecFns;
use vstd::string::StringExecFns;

use crate::strings::lex_leq;

verus! {

/// Width of the name column in a target's display string.
pub const NAME_COLUMN_WIDTH: usize = 30;

/// A run target declared by a manifest: a binary or example product.
/// `workspace_path` is the directory of the manifest that declared it.
#[derive(Debug)]
pub struct RunTarget {
    pub name: String,
    pub path: String,
    pub workspace_path: String,
}

/// A test function found in a source file.
#[derive(Debug)]
pub struct TestTarget {
    pub name: String,
    pub path: String,
}

/// One selectable unit of the project tree.
#[derive(Debug)]
pub enum Target {
    Bin(RunTarget),
    Example(RunTarget),
    Test(TestTarget),
}

/// The characters of an optional string; an absent string reads as empty.
pub open spec fn opt_str_view(o: Option<String>) -> Seq<char> {
    match o {
        Some(s) => s@,
        None => Seq::empty(),
    }
}

/// Joining a root directory with a relative path: an absolute path stands
/// alone, anything else is appended behind a separator.
pub open spec fn path_join(root: Seq<char>, rel: Seq<char>) -> Seq<char> {
    if rel.len() > 0 && rel[0] == '/' {
        rel
    } else {
        root + seq!['/'] + rel
    }
}

/// Joins a root directory with a relative path as [`path_join`] describes.
pub fn join_path(root: &str, rel: &str) -> (r: String)
    ensures
        r@ == path_join(root@, rel@),
{
    if rel.unicode_len() > 0 && rel.get_char(0) == '/' {
        rel.to_owned()
    } else {
        let mut r = root.to_owned();
        r.append("/");
        r.append(rel);
        proof {
            reveal_strlit("/");
            assert("/"@ =~= seq!['/']);
        }
        r
    }
}

/// `n` space characters.
pub open spec fn spaces(n: nat) -> Seq<char> {
    Seq::new(n, |i: int| ' ')
}

/// `s` padded on the right with spaces to at least width `w`.
pub open spec fn pad_to(s: Seq<char>, w: nat) -> Seq<char> {
    if s.len() < w {
        s + spaces((w - s.len()) as nat)
    } else {
        s
    }
}

/// The name-and-path part of a display string: the name padded to the name
/// column width, then the path in parentheses behind a tab.
pub open spec fn name_path_display(name: Seq<char>, path: Seq<char>) -> Seq<char> {
    pad_to(name, NAME_COLUMN_WIDTH as nat) + "\t("@ + path + ")"@
}

/// The full display string of a target: its kind, then name and path.
pub open spec fn target_display(t: Target) -> Seq<char> {
    match t {
        Target::Bin(rt) => "Binary: "@ + name_path_display(rt.name@, rt.path@),
        Target::Example(rt) => "Example: "@ + name_path_display(rt.name@, rt.path@),
        Target::Test(tt) => "Test: "@ + name_path_display(tt.name@, tt.path@),
    }
}

/// Builds the name-and-path part of a display string.
fn padded_name_path(name: &String, path: &String) -> (r: String)
    ensures
        r@ == name_path_display(name@, path@),
{
    let mut r = String::new();
    r.append(name.as_str());
    let mut k: usize = name.as_str().unicode_len();
    proof {
        assert(r@ =~= name@ + spaces(0));
    }
    while k < NAME_COLUMN_WIDTH
        invariant
            name@.len() <= k,
            name@.len() < NAME_COLUMN_WIDTH ==> k <= NAME_COLUMN_WIDTH,
            name@.len() >= NAME_COLUMN_WIDTH ==> k == name@.len(),
            r@ == name@ + spaces((k - name@.len()) as nat),
        decreases NAME_COLUMN_WIDTH - k,
    {
        proof {
            reveal_strlit(" ");
            assert(" "@ =~= seq![' ']);
            assert(spaces((k + 1 - name@.len()) as nat) =~= spaces((k - name@.len()) as nat) + seq![' ']);
        }
        r.append(" ");
        k = k + 1;
        proof {
            assert(r@ =~= name@ + spaces((k - name@.len()) as nat));
        }
    }
    proof {
        assert(r@ =~= pad_to(name@, NAME_COLUMN_WIDTH as nat)) by {
            if name@.len() >= NAME_COLUMN_WIDTH {
                assert(r@ == name@ + spaces(0));
                assert(name@ + spaces(0) =~= name@);
            }
        }
    }
    r.append("\t(");
    r.append(path.as_str());
    r.append(")");
    r
}

impl RunTarget {
    /// Builds a run target from a product's declared name and relative
    /// source path; an omitted name stays empty, an omitted path resolves
    /// to the root itself.
    pub fn new(name: Option<String>, rel_path: Option<String>, root: &str) -> (r: RunTarget)
        ensures
            r.name@ == opt_str_view(name),
            r.path@ == path_join(root@, opt_str_view(rel_path)),
            r.workspace_path@ == root@,
    {
        let name_s: String = match name {
            Some(n) => n,
            None => String::new(),
        };
        let path_s: String = match rel_path {
            Some(p) => join_path(root, p.as_str()),
            None => {
                let r = join_path(root, "");
                proof {
                    reveal_strlit("");
                    assert(""@ =~= Seq::<char>::empty());
                }
                r
            },
        };
        RunTarget { name: name_s, path: path_s, workspace_path: root.to_owned() }
    }

    /// The name-and-path display string of this run target.
    pub fn display_string(&self) -> (r: String)
        ensures
            r@ == name_path_display(self.name@, self.path@),
    {
        padded_name_path(&self.name, &self.path)
    }
}

impl TestTarget {
    /// The name-and-path display string of this test target.
    pub fn display_string(&self) -> (r: String)
        ensures
            r@ == name_path_display(self.name@, self.path@),
    {
        padded_name_path(&self.name, &self.path)
    }
}

impl Target {
    /// The cargo flag that selects this kind of target; test targets have
    /// none and are dispatched otherwise.
    pub fn to_cargo_flag(&self) -> (r: &'static str)
        requires
            !(*self is Test),
        ensures
            (*self is Bin) ==> r@ == "--package"@,
            (*self is Example) ==> r@ == "--example"@,
    {
        match self {
            Target::Bin(_) => "--package",
            Target::Example(_) => "--example",
            Target::Test(_) => unreached(),
        }
    }

    /// The full display string of this target.
    pub fn display_string(&self) -> (r: String)
        ensures
            r@ == target_display(*self),
    {
        match self {
            Target::Bin(t) => {
                let mut r = String::from_str("Binary: ");
                let rest = t.display_string();
                r.append(rest.as_str());
                r
            },
            Target::Example(t) => {
                let mut r = String::from_str("Example: ");
                let rest = t.display_string();
                r.append(rest.as_str());
                r
            },
            Target::Test(t) => {
                let mut r = String::from_str("Test: ");
                let rest = t.display_string();
                r.append(rest.as_str());
                r
            },
        }
    }
}

/// The score that fuzzy_matcher's skim scorer, in its default
/// configuration, assigns to a candidate string under a pattern; absent
/// when the candidate does not match the pattern at all.  The score is a
/// function of the two strings alone.
pub uninterp spec fn skim_score(candidate: Seq<char>, pattern: Seq<char>) -> Option<i64>;

/// Relies on `fuzzy_matcher::skim::SkimMatcherV2` under its `FuzzyMatcher`
/// impl: with the default configuration the returned score is computed
/// from the candidate and pattern strings alone.
#[verifier::external_body]
fn skim_fuzzy_match(candidate: &str, pattern: &str) -> (r: Option<i64>)
    ensures
        r == skim_score(candidate@, pattern@),
{
    let matcher = fuzzy_matcher::skim::SkimMatcherV2::default();
    fuzzy_matcher::FuzzyMatcher::fuzzy_match(&matcher, candidate, pattern)
}

/// The score a target ranks by: its display string's skim score, with "no
/// match" read as -1.
pub open spec fn effective_score(t: Target, pattern: Seq<char>) -> int {
    match skim_score(target_display(t), pattern) {
        Some(s) => s as int,
        None => -1,
    }
}

impl Target {
    /// This target's match score under `pattern`; -1 when it does not
    /// match.
    pub fn fuzzy_match(&self, pattern: &str) -> (r: i64)
        ensures
            r as int == effective_score(*self, pattern@),
    {
        let d = self.display_string();
        match skim_fuzzy_match(d.as_str(), pattern) {
            Some(s) => s,
            None => -1,
        }
    }
}

/// Whether `a` may stand no later than `b` in the ranked list: a lower
/// score first; among equal scores the lexicographically greater display
/// string first.
pub open spec fn rank_leq(a: Target, b: Target, pattern: Seq<char>) -> bool {
    ||| effective_score(a, pattern) < effective_score(b, pattern)
    ||| (effective_score(a, pattern) == effective_score(b, pattern) && lex_leq(
        target_display(b),
        target_display(a),
    ))
}

/// Any two targets are comparable by rank.
pub proof fn lemma_rank_total(a: Target, b: Target, pattern: Seq<char>)
    ensures
        rank_leq(a, b, pattern) || rank_leq(b, a, pattern),
{
    crate::strings::lemma_lex_total(target_display(a), target_display(b));
}

/// The rank order is transitive.
pub proof fn lemma_rank_transitive(a: Target, b: Target, c: Target, pattern: Seq<char>)
    requires
        rank_leq(a, b, pattern),
        rank_leq(b, c, pattern),
    ensures
        rank_leq(a, c, pattern),
{
    if effective_score(a, pattern) == effective_score(b, pattern) && effective_score(b, pattern)
        == effective_score(c, pattern) {
        crate::strings::lemma_lex_transitive(
            target_display(c),
            target_display(b),
            target_display(a),
        );
    }
}

/// Whether a target matches the pattern well enough to be retained.
pub open spec fn keeps(t: Target, pattern: Seq<char>) -> bool {
    effective_score(t, pattern) > 0
}

/// The retention test as a function value, for `Seq::filter`.
pub open spec fn keep_pred(pattern: Seq<char>) -> spec_fn(Target) -> bool {
    |t: Target| keeps(t, pattern)
}

/// The targets that match the pattern, in input order.
pub open spec fn retained(ts: Seq<Target>, pattern: Seq<char>) -> Seq<Target> {
    ts.filter(keep_pred(pattern))
}

/// `x` inserted into `s` behind every element that ranks no later than it;
/// inserting each element this way from the left is a stable sort.
pub open spec fn insert_ranked(x: Target, s: Seq<Target>, pattern: Seq<char>) -> Seq<Target>
    decreases s.len(),
{
    if s.len() == 0 {
        seq![x]
    } else if rank_leq(s.last(), x, pattern) {
        s.push(x)
    } else {
        insert_ranked(x, s.drop_last(), pattern).push(s.last())
    }
}

/// `s` stably sorted by rank.
pub open spec fn sort_ranked(s: Seq<Target>, pattern: Seq<char>) -> Seq<Target>
    decreases s.len(),
{
    if s.len() == 0 {
        Seq::empty()
    } else {
        insert_ranked(s.last(), sort_ranked(s.drop_last(), pattern), pattern)
    }
}

/// What the scorer returns: the retained targets, stably sorted by rank.
/// This is a function of the target sequence and the pattern alone, so the
/// scorer is deterministic.
pub open spec fn score_ordering(ts: Seq<Target>, pattern: Seq<char>) -> Seq<Target> {
    sort_ranked(retained(ts, pattern), pattern)
}

/// Adjacent elements are ordered by rank.
pub open spec fn sorted_ranked(s: Seq<Target>, pattern: Seq<char>) -> bool {
    forall|i: int| 0 <= i < s.len() - 1 ==> rank_leq(#[trigger] s[i], s[i + 1], pattern)
}

/// The targets a sequence of borrows points at.
pub open spec fn deref_seq(s: Seq<&Target>) -> Seq<Target> {
    s.map_values(|t: &Target| *t)
}

proof fn lemma_insert_ranked_len(x: Target, s: Seq<Target>, pattern: Seq<char>)
    ensures
        insert_ranked(x, s, pattern).len() == s.len() + 1,
    decreases s.len(),
{
    if s.len() > 0 && !rank_leq(s.last(), x, pattern) {
        lemma_insert_ranked_len(x, s.drop_last(), pattern);
    }
}

proof fn lemma_insert_ranked_multiset(x: Target, s: Seq<Target>, pattern: Seq<char>)
    ensures
        insert_ranked(x, s, pattern).to_multiset() == s.to_multiset().insert(x),
    decreases s.len(),
{
    broadcast use vstd::seq_lib::group_to_multiset_ensures;
    broadcast use vstd::multiset::group_multiset_properties;

    if s.len() == 0 {
        assert(seq![x] =~= s.push(x));
        assert(s.push(x).to_multiset() =~= s.to_multiset().insert(x));
    } else if rank_leq(s.last(), x, pattern) {
        assert(s.push(x).to_multiset() =~= s.to_multiset().insert(x));
    } else {
        let dl = s.drop_last();
        lemma_insert_ranked_multiset(x, dl, pattern);
        assert(s =~= dl.push(s.last()));
        assert(dl.push(s.last()).to_multiset() =~= dl.to_multiset().insert(s.last()));
        assert(insert_ranked(x, dl, pattern).push(s.last()).to_multiset() =~= insert_ranked(
            x,
            dl,
            pattern,
        ).to_multiset().insert(s.last()));
        assert(dl.to_multiset().insert(x).insert(s.last()) =~= dl.to_multiset().insert(
            s.last(),
        ).insert(x));
    }
}

proof fn lemma_sort_ranked_multiset(s: Seq<Target>, pattern: Seq<char>)
    ensures
        sort_ranked(s, pattern).to_multiset() == s.to_multiset(),
    decreases s.len(),
{
    broadcast use vstd::seq_lib::group_to_multiset_ensures;

    if s.len() > 0 {
        let dl = s.drop_last();
        lemma_sort_ranked_multiset(dl, pattern);
        lemma_insert_ranked_multiset(s.last(), sort_ranked(dl, pattern), pattern);
        assert(s =~= dl.push(s.last()));
        assert(dl.push(s.last()).to_multiset() =~= dl.to_multiset().insert(s.last()));
    }
}

proof fn lemma_insert_ranked_sorted(x: Target, s: Seq<Target>, pattern: Seq<char>)
    requires
        sorted_ranked(s, pattern),
    ensures
        sorted_ranked(insert_ranked(x, s, pattern), pattern),
    decreases s.len(),
{
    if s.len() == 0 {
    } else if rank_leq(s.last(), x, pattern) {
        let r = s.push(x);
        assert forall|i: int| 0 <= i < r.len() - 1 implies rank_leq(#[trigger] r[i], r[i + 1], pattern) by {
            if i < s.len() - 1 {
                assert(rank_leq(s[i], s[i + 1], pattern));
            }
        }
    } else {
        let dl = s.drop_last();
        assert(sorted_ranked(dl, pattern)) by {
            assert forall|i: int| 0 <= i < dl.len() - 1 implies rank_leq(#[trigger] dl[i], dl[i + 1], pattern)
            by {
                assert(rank_leq(s[i], s[i + 1], pattern));
            }
        }
        lemma_insert_ranked_sorted(x, dl, pattern);
        lemma_insert_ranked_len(x, dl, pattern);
        let r0 = insert_ranked(x, dl, pattern);
        // the last element of r0 is either x or the last element of dl
        assert(rank_leq(r0.last(), s.last(), pattern)) by {
            if dl.len() == 0 {
                lemma_rank_total(s.last(), x, pattern);
            } else if rank_leq(dl.last(), x, pattern) {
                lemma_rank_total(s.last(), x, pattern);
            } else {
                assert(r0.last() == dl.last());
                assert(dl.last() == s[s.len() - 2]);
                assert(rank_leq(s[s.len() - 2], s[s.len() - 2 + 1], pattern));
            }
        }
        let r = r0.push(s.last());
        assert forall|i: int| 0 <= i < r.len() - 1 implies rank_leq(#[trigger] r[i], r[i + 1], pattern) by {
            if i < r0.len() - 1 {
                assert(rank_leq(r0[i], r0[i + 1], pattern));
            } else {
                assert(r[i] == r0.last());
            }
        }
    }
}

proof fn lemma_sort_ranked_sorted(s: Seq<Target>, pattern: Seq<char>)
    ensures
        sorted_ranked(sort_ranked(s, pattern), pattern),
    decreases s.len(),
{
    if s.len() > 0 {
        lemma_sort_ranked_sorted(s.drop_last(), pattern);
        lemma_insert_ranked_sorted(s.last(), sort_ranked(s.drop_last(), pattern), pattern);
    }
}

proof fn lemma_sorted_ranked_pairwise(s: Seq<Target>, pattern: Seq<char>, i: int, j: int)
    requires
        sorted_ranked(s, pattern),
        0 <= i <= j < s.len(),
    ensures
        rank_leq(s[i], s[j], pattern),
    decreases j - i,
{
    if i == j {
        lemma_rank_total(s[i], s[i], pattern);
    } else {
        lemma_sorted_ranked_pairwise(s, pattern, i, j - 1);
        assert(rank_leq(s[j - 1], s[j - 1 + 1], pattern));
        lemma_rank_transitive(s[i], s[j - 1], s[j], pattern);
    }
}

proof fn lemma_insert_ranked_at(x: Target, s: Seq<Target>, pattern: Seq<char>, j: int)
    requires
        0 <= j <= s.len(),
        forall|k: int| j <= k < s.len() ==> !rank_leq(#[trigger] s[k], x, pattern),
        j > 0 ==> rank_leq(s[j - 1], x, pattern),
    ensures
        insert_ranked(x, s, pattern) == s.take(j) + seq![x] + s.skip(j),
    decreases s.len(),
{
    if s.len() == 0 {
        assert(seq![x] =~= s.take(0) + seq![x] + s.skip(0));
    } else if rank_leq(s.last(), x, pattern) {
        assert(j == s.len()) by {
            if j < s.len() {
                assert(!rank_leq(s[s.len() - 1], x, pattern));
            }
        }
        assert(s.push(x) =~= s.take(j) + seq![x] + s.skip(j));
    } else {
        assert(j < s.len()) by {
            if j == s.len() {
                assert(rank_leq(s[j - 1], x, pattern));
            }
        }
        let dl = s.drop_last();
        lemma_insert_ranked_at(x, dl, pattern, j);
        assert(insert_ranked(x, dl, pattern).push(s.last()) =~= s.take(j) + seq![x] + s.skip(j))
            by {
            assert(dl.take(j) =~= s.take(j));
            assert(dl.skip(j).push(s.last()) =~= s.skip(j));
        }
    }
}

proof fn lemma_retained_multiset_count(s: Seq<Target>, pattern: Seq<char>, v: Target)
    ensures
        retained(s, pattern).to_multiset().count(v) == if keeps(v, pattern) {
            s.to_multiset().count(v)
        } else {
            0
        },
    decreases s.len(),
{
    broadcast use vstd::seq_lib::group_to_multiset_ensures;

    if s.len() == 0 {
        s.lemma_filter_len(keep_pred(pattern));
        assert(retained(s, pattern) =~= Seq::<Target>::empty());
        assert(!retained(s, pattern).contains(v));
        assert(!s.contains(v));
    } else {
        let dl = s.drop_last();
        lemma_retained_multiset_count(dl, pattern, v);
        dl.lemma_filter_push(s.last(), keep_pred(pattern));
        assert(s =~= dl.push(s.last()));
        assert(retained(s, pattern) == dl.push(s.last()).filter(keep_pred(pattern)));
        assert(dl.push(s.last()).to_multiset() =~= dl.to_multiset().insert(s.last()));
        if keep_pred(pattern)(s.last()) {
            assert(retained(dl, pattern).push(s.last()).to_multiset() =~= retained(
                dl,
                pattern,
            ).to_multiset().insert(s.last()));
            if s.last() == v {
                vstd::multiset::lemma_insert_increases_count_by_1(
                    retained(dl, pattern).to_multiset(),
                    v,
                );
                vstd::multiset::lemma_insert_increases_count_by_1(dl.to_multiset(), v);
            } else {
                vstd::multiset::lemma_insert_other_elements_unchanged(
                    retained(dl, pattern).to_multiset(),
                    s.last(),
                    v,
                );
                vstd::multiset::lemma_insert_other_elements_unchanged(
                    dl.to_multiset(),
                    s.last(),
                    v,
                );
            }
        } else {
            assert(!keeps(s.last(), pattern));
            if s.last() == v {
            } else {
                vstd::multiset::lemma_insert_other_elements_unchanged(
                    dl.to_multiset(),
                    s.last(),
                    v,
                );
            }
        }
    }
}

/// Positivity: every element of the scorer's output matches the pattern
/// with a strictly positive score.
pub proof fn lemma_score_positive(ts: Seq<Target>, pattern: Seq<char>, i: int)
    requires
        0 <= i < score_ordering(ts, pattern).len(),
    ensures
        effective_score(score_ordering(ts, pattern)[i], pattern) > 0,
{
    broadcast use vstd::seq_lib::group_to_multiset_ensures;

    let r = retained(ts, pattern);
    let out = score_ordering(ts, pattern);
    lemma_sort_ranked_multiset(r, pattern);
    assert(out.contains(out[i]));
    assert(r.to_multiset().count(out[i]) > 0);
    assert(r.contains(out[i]));
    let j = choose|j: int| 0 <= j < r.len() && r[j] == out[i];
    ts.lemma_filter_pred(keep_pred(pattern), j);
}

/// Tie-break: among retained targets of equal score, earlier elements of
/// the scorer's output carry the lexicographically greater display string.
pub proof fn lemma_tie_break(ts: Seq<Target>, pattern: Seq<char>, i: int, j: int)
    requires
        0 <= i < j < score_ordering(ts, pattern).len(),
        effective_score(score_ordering(ts, pattern)[i], pattern) == effective_score(
            score_ordering(ts, pattern)[j],
            pattern,
        ),
    ensures
        lex_leq(
            target_display(score_ordering(ts, pattern)[j]),
            target_display(score_ordering(ts, pattern)[i]),
        ),
{
    lemma_sort_ranked_sorted(retained(ts, pattern), pattern);
    lemma_sorted_ranked_pairwise(score_ordering(ts, pattern), pattern, i, j);
}

/// Tail-select: permuting the input targets never changes the score or the
/// display string of the best match, the last element of the scorer's
/// output.
pub proof fn lemma_tail_select(ts1: Seq<Target>, ts2: Seq<Target>, pattern: Seq<char>)
    requires
        ts1.to_multiset() == ts2.to_multiset(),
    ensures
        score_ordering(ts1, pattern).len() == score_ordering(ts2, pattern).len(),
        score_ordering(ts1, pattern).len() > 0 ==> effective_score(
            score_ordering(ts1, pattern).last(),
            pattern,
        ) == effective_score(score_ordering(ts2, pattern).last(), pattern),
        score_ordering(ts1, pattern).len() > 0 ==> target_display(
            score_ordering(ts1, pattern).last(),
        ) == target_display(score_ordering(ts2, pattern).last()),
{
    broadcast use vstd::seq_lib::group_to_multiset_ensures;

    let o1 = score_ordering(ts1, pattern);
    let o2 = score_ordering(ts2, pattern);
    assert forall|v: Target|
        retained(ts1, pattern).to_multiset().count(v) == retained(
            ts2,
            pattern,
        ).to_multiset().count(v) by {
        lemma_retained_multiset_count(ts1, pattern, v);
        lemma_retained_multiset_count(ts2, pattern, v);
    }
    assert(retained(ts1, pattern).to_multiset() =~= retained(ts2, pattern).to_multiset());
    lemma_sort_ranked_multiset(retained(ts1, pattern), pattern);
    lemma_sort_ranked_multiset(retained(ts2, pattern), pattern);
    assert(o1.len() == o1.to_multiset().len());
    assert(o2.len() == o2.to_multiset().len());
    if o1.len() > 0 {
        lemma_sort_ranked_sorted(retained(ts1, pattern), pattern);
        lemma_sort_ranked_sorted(retained(ts2, pattern), pattern);
        let a = o1.last();
        let b = o2.last();
        assert(o1.contains(a));
        assert(o2.to_multiset().count(a) > 0);
        assert(o2.contains(a));
        let ka = choose|k: int| 0 <= k < o2.len() && o2[k] == a;
        lemma_sorted_ranked_pairwise(o2, pattern, ka, o2.len() - 1);
        assert(rank_leq(a, b, pattern));
        assert(o2.contains(b));
        assert(o1.to_multiset().count(b) > 0);
        assert(o1.contains(b));
        let kb = choose|k: int| 0 <= k < o1.len() && o1[k] == b;
        lemma_sorted_ranked_pairwise(o1, pattern, kb, o1.len() - 1);
        assert(rank_leq(b, a, pattern));
        assert(effective_score(a, pattern) == effective_score(b, pattern));
        crate::strings::lemma_lex_antisymmetric(target_display(a), target_display(b));
    }
}

/// Whether `a` ranks no later than `b` under `pattern`.
fn rank_leq_exec(a: &Target, b: &Target, pattern: &str) -> (r: bool)
    ensures
        r == rank_leq(*a, *b, pattern@),
{
    let sa = a.fuzzy_match(pattern);
    let sb = b.fuzzy_match(pattern);
    if sa < sb {
        true
    } else if sb < sa {
        false
    } else {
        let da = a.display_string();
        let db = b.display_string();
        crate::strings::lex_leq_str(db.as_str(), da.as_str())
    }
}

/// Filters `targets` down to those that match `pattern` with a positive
/// score and ranks them: ascending score, and among equal scores the
/// lexicographically greater display string first.  The best match is the
/// *last* element.  The result is a function of the target list and the
/// pattern alone, so repeated calls return the same sequence.
pub fn score_targets<'a>(targets: &'a Vec<Target>, pattern: &str) -> (res: Vec<&'a Target>)
    ensures
        deref_seq(res@) == score_ordering(targets@, pattern@),
{
    // keep the positively scored targets in input order
    let mut kept: Vec<&'a Target> = Vec::new();
    let mut idx: usize = 0;
    proof {
        targets@.take(0).lemma_filter_len(keep_pred(pattern@));
        assert(targets@.take(0) =~= Seq::<Target>::empty());
        assert(retained(targets@.take(0), pattern@) =~= Seq::<Target>::empty());
        assert(deref_seq(kept@) =~= Seq::<Target>::empty());
    }
    while idx < targets.len()
        invariant
            idx <= targets@.len(),
            deref_seq(kept@) == retained(targets@.take(idx as int), pattern@),
        decreases targets@.len() - idx,
    {
        let t: &'a Target = &targets[idx];
        let s = t.fuzzy_match(pattern);
        let ghost kept0 = kept@;
        if s > 0 {
            kept.push(t);
        }
        proof {
            assert(targets@.take(idx + 1) =~= targets@.take(idx as int).push(targets@[idx as int]));
            targets@.take(idx as int).lemma_filter_push(targets@[idx as int], keep_pred(pattern@));
            if s > 0 {
                assert(deref_seq(kept@) =~= deref_seq(kept0).push(*t));
            }
        }
        idx = idx + 1;
    }
    proof {
        assert(targets@.take(targets@.len() as int) =~= targets@);
    }
    // stable insertion sort by rank
    let mut out: Vec<&'a Target> = Vec::new();
    let mut i: usize = 0;
    proof {
        assert(deref_seq(kept@).take(0) =~= Seq::<Target>::empty());
        assert(deref_seq(out@) =~= Seq::<Target>::empty());
    }
    while i < kept.len()
        invariant
            i <= kept@.len(),
            out@.len() <= i,
            deref_seq(out@) == sort_ranked(deref_seq(kept@).take(i as int), pattern@),
        decreases kept@.len() - i,
    {
        let x: &'a Target = kept[i];
        let mut j: usize = out.len();
        while j > 0 && !rank_leq_exec(out[j - 1], x, pattern)
            invariant
                j <= out@.len(),
                forall|k: int|
                    j <= k < out@.len() ==> !rank_leq(#[trigger] deref_seq(out@)[k], *x, pattern@),
            decreases j,
        {
            j = j - 1;
        }
        let ghost out0 = deref_seq(out@);
        out.insert(j, x);
        proof {
            lemma_insert_ranked_at(*x, out0, pattern@, j as int);
            assert(deref_seq(out@) =~= out0.take(j as int) + seq![*x] + out0.skip(j as int));
            assert(deref_seq(kept@).take(i + 1) =~= deref_seq(kept@).take(i as int).push(*x));
            assert(deref_seq(kept@).take(i + 1).drop_last() =~= deref_seq(kept@).take(i as int));
            assert(sort_ranked(deref_seq(kept@).take(i + 1), pattern@) == insert_ranked(
                *x,
                sort_ranked(deref_seq(kept@).take(i as int), pattern@),
                pattern@,
            ));
        }
        i = i + 1;
    }
    proof {
        assert(deref_seq(kept@).take(kept@.len() as int) =~= deref_seq(kept@));
    }
    out
}

} // verus!
