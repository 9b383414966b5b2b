//! Resolving a workspace of manifests into a flat target list.
//!
//! Reading and parsing a manifest file is the caller's business; the
//! resolver consumes the already-parsed shape, a [`ManifestData`]: declared
//! binaries, declared examples, and workspace member paths.  Because every
//! step of the resolution needs the filesystem (a member's manifest must be
//! read, a wildcard member's directory must be listed), the recursion is
//! driven as an explicit work-list: [`Resolver::next_action`] names the
//! next filesystem step, the caller performs it and hands the result to
//! [`Resolver::on_manifest`] or [`Resolver::on_dirs`], and the resolver
//! accumulates targets depth-first — a root's own targets before its
//! members', members in declaration order, wildcard-expanded members in
//! directory-listing order.
//!
//! A member path equal to `.` or `/.` points back at its own root and is
//! skipped, so a manifest that lists itself does not recurse forever.

use vstd::prelude::*;

use crate::select::RunTarget;
use crate::select::Target;
use crate::select::opt_str_view;
use crate::select::path_join;
use crate::strings::ends_with;
use crate::strings::ends_with_str;
use crate::strings::str_eq;
use vstd::string::StrSliceExecFns;

verus! {

/// A product declared by a manifest: a binary or an example, with its
/// optional name and optional relative source path.
pub struct ProductDecl {
    pub name: Option<String>,
    pub path: Option<String>,
}

/// What the resolver reads from one manifest: the declared binaries and
/// examples, and the workspace member paths (empty when the manifest
/// declares no workspace).
pub struct ManifestData {
    pub bins: Vec<ProductDecl>,
    pub examples: Vec<ProductDecl>,
    pub members: Vec<String>,
}

/// Whether the run target's fields are those of the declared product under
/// the given workspace root.
pub open spec fn is_run_values(rt: RunTarget, d: ProductDecl, root: Seq<char>) -> bool {
    &&& rt.name@ == opt_str_view(d.name)
    &&& rt.path@ == path_join(root, opt_str_view(d.path))
    &&& rt.workspace_path@ == root
}

/// Whether `t` is the binary target of product `d` under `root`.
pub open spec fn is_bin_of(t: Target, d: ProductDecl, root: Seq<char>) -> bool {
    match t {
        Target::Bin(rt) => is_run_values(rt, d, root),
        _ => false,
    }
}

/// Whether `t` is the example target of product `d` under `root`.
pub open spec fn is_example_of(t: Target, d: ProductDecl, root: Seq<char>) -> bool {
    match t {
        Target::Example(rt) => is_run_values(rt, d, root),
        _ => false,
    }
}

/// Whether `ts` is exactly the target list a manifest declares directly:
/// one binary target per declared binary, then one example target per
/// declared example, in declaration order.
pub open spec fn direct_targets_of(ts: Seq<Target>, m: ManifestData, root: Seq<char>) -> bool {
    &&& ts.len() == m.bins@.len() + m.examples@.len()
    &&& forall|i: int| 0 <= i < m.bins@.len() ==> is_bin_of(#[trigger] ts[i], m.bins@[i], root)
    &&& forall|i: int|
        0 <= i < m.examples@.len() ==> is_example_of(
            ts[m.bins@.len() + i],
            #[trigger] m.examples@[i],
            root,
        )
}

/// Clones an optional product string; only the characters matter to the
/// resolver's contracts.
fn clone_opt_string(o: &Option<String>) -> (r: Option<String>)
    ensures
        opt_str_view(r) == opt_str_view(*o),
{
    match o {
        Some(s) => Some(s.clone()),
        None => None,
    }
}

/// The targets a manifest declares directly, binaries before examples,
/// each in declaration order.
pub fn targets_from_manifest(manifest: &ManifestData, path: &str) -> (res: Vec<Target>)
    ensures
        direct_targets_of(res@, *manifest, path@),
{
    let mut res: Vec<Target> = Vec::new();
    let mut i: usize = 0;
    while i < manifest.bins.len()
        invariant
            i <= manifest.bins@.len(),
            res@.len() == i,
            forall|k: int|
                0 <= k < i ==> is_bin_of(#[trigger] res@[k], manifest.bins@[k], path@),
        decreases manifest.bins@.len() - i,
    {
        let d = &manifest.bins[i];
        let rt = RunTarget::new(clone_opt_string(&d.name), clone_opt_string(&d.path), path);
        res.push(Target::Bin(rt));
        i = i + 1;
    }
    let ghost nbins = manifest.bins@.len();
    let mut j: usize = 0;
    while j < manifest.examples.len()
        invariant
            j <= manifest.examples@.len(),
            nbins == manifest.bins@.len(),
            res@.len() == nbins + j,
            forall|k: int|
                0 <= k < nbins ==> is_bin_of(#[trigger] res@[k], manifest.bins@[k], path@),
            forall|k: int|
                0 <= k < j ==> is_example_of(
                    res@[nbins + k],
                    #[trigger] manifest.examples@[k],
                    path@,
                ),
        decreases manifest.examples@.len() - j,
    {
        let d = &manifest.examples[j];
        let rt = RunTarget::new(clone_opt_string(&d.name), clone_opt_string(&d.path), path);
        res.push(Target::Example(rt));
        j = j + 1;
    }
    res
}

/// A pending step of the resolution: a directory whose manifest is still
/// to be read, or a wildcard prefix whose subdirectories are still to be
/// listed.
pub enum WorkItem {
    Root(String),
    Wildcard(String),
}

/// Whether `w` is a pending manifest root at path `p`.
pub open spec fn is_root_item(w: WorkItem, p: Seq<char>) -> bool {
    match w {
        WorkItem::Root(s) => s@ == p,
        _ => false,
    }
}

/// Whether `w` is a pending wildcard prefix at path `p`.
pub open spec fn is_wildcard_item(w: WorkItem, p: Seq<char>) -> bool {
    match w {
        WorkItem::Wildcard(s) => s@ == p,
        _ => false,
    }
}

/// The self-reference guard: a member path that points back at its own
/// root and must not be entered.
pub open spec fn is_self_reference(m: Seq<char>) -> bool {
    m == "."@ || m == "/."@
}

/// Whether a member path names a one-level wildcard group.
pub open spec fn is_wildcard_member(m: Seq<char>) -> bool {
    ends_with(m, "/*"@)
}

/// The member paths that survive the self-reference guard, in declaration
/// order.
pub open spec fn kept_members(ms: Seq<Seq<char>>) -> Seq<Seq<char>> {
    ms.filter(|m: Seq<char>| !is_self_reference(m))
}

/// Whether `w` is the work item that member path `m` under `root` gives
/// rise to: the joined prefix of a wildcard member, the joined path of a
/// plain member.
pub open spec fn member_item_ok(w: WorkItem, m: Seq<char>, root: Seq<char>) -> bool {
    if is_wildcard_member(m) {
        is_wildcard_item(w, path_join(root, m.take(m.len() - 2)))
    } else {
        is_root_item(w, path_join(root, m))
    }
}

/// How `on_manifest` reshapes the stack: the top is popped and the kept
/// members are pushed so that the first-declared member is processed first.
pub open spec fn stack_after_manifest(
    old_st: Seq<WorkItem>,
    new_st: Seq<WorkItem>,
    ms: Seq<Seq<char>>,
    root: Seq<char>,
) -> bool {
    let base = old_st.drop_last();
    let kept = kept_members(ms);
    &&& new_st.len() == base.len() + kept.len()
    &&& forall|i: int| 0 <= i < base.len() ==> new_st[i] == base[i]
    &&& forall|i: int|
        0 <= i < kept.len() ==> member_item_ok(
            new_st[new_st.len() - 1 - i],
            #[trigger] kept[i],
            root,
        )
}

/// How `on_dirs` reshapes the stack: the top is popped and one pending
/// root per listed directory is pushed so that the first-listed directory
/// is processed first.
pub open spec fn stack_after_dirs(
    old_st: Seq<WorkItem>,
    new_st: Seq<WorkItem>,
    dirs: Seq<Seq<char>>,
    prefix: Seq<char>,
) -> bool {
    let base = old_st.drop_last();
    &&& new_st.len() == base.len() + dirs.len()
    &&& forall|i: int| 0 <= i < base.len() ==> new_st[i] == base[i]
    &&& forall|i: int|
        0 <= i < dirs.len() ==> is_root_item(
            new_st[new_st.len() - 1 - i],
            path_join(prefix, #[trigger] dirs[i]),
        )
}

/// What the resolver asks its caller to do next.
pub enum ResolverAction {
    /// Read and parse the manifest of this directory, then call
    /// `on_manifest`; a missing or unparsable manifest is fatal and ends
    /// the resolution.
    LoadManifest(String),
    /// List the immediate subdirectories of this directory, then call
    /// `on_dirs`.
    ListDirs(String),
    /// Nothing is pending; the accumulated targets are the result.
    Done,
}

/// Work-list resolver for a workspace of manifests.  See the module
/// documentation for the driving protocol.
pub struct Resolver {
    pub stack: Vec<WorkItem>,
    pub targets: Vec<Target>,
}

impl Resolver {
    /// A resolver with the root directory pending and nothing resolved.
    pub fn new(root: String) -> (r: Resolver)
        ensures
            r.targets@.len() == 0,
            r.stack@.len() == 1,
            is_root_item(r.stack@[0], root@),
    {
        let mut stack: Vec<WorkItem> = Vec::new();
        stack.push(WorkItem::Root(root));
        Resolver { stack, targets: Vec::new() }
    }

    /// The next filesystem step, named after the top of the work stack.
    pub fn next_action(&self) -> (a: ResolverAction)
        ensures
            match a {
                ResolverAction::Done => self.stack@.len() == 0,
                ResolverAction::LoadManifest(p) => self.stack@.len() > 0 && is_root_item(
                    self.stack@.last(),
                    p@,
                ),
                ResolverAction::ListDirs(p) => self.stack@.len() > 0 && is_wildcard_item(
                    self.stack@.last(),
                    p@,
                ),
            },
    {
        if self.stack.len() == 0 {
            ResolverAction::Done
        } else {
            match &self.stack[self.stack.len() - 1] {
                WorkItem::Root(p) => ResolverAction::LoadManifest(p.clone()),
                WorkItem::Wildcard(p) => ResolverAction::ListDirs(p.clone()),
            }
        }
    }

    /// Takes the manifest read for the pending root on top of the stack:
    /// appends the targets it declares directly and makes its members
    /// pending, first-declared on top, members caught by the
    /// self-reference guard skipped.
    pub fn on_manifest(&mut self, m: &ManifestData, root: &str)
        requires
            old(self).stack@.len() > 0,
            is_root_item(old(self).stack@.last(), root@),
        ensures
            final(self).targets@.len() == old(self).targets@.len() + m.bins@.len()
                + m.examples@.len(),
            forall|i: int|
                0 <= i < old(self).targets@.len() ==> final(self).targets@[i] == old(
                    self,
                ).targets@[i],
            direct_targets_of(
                final(self).targets@.skip(old(self).targets@.len() as int),
                *m,
                root@,
            ),
            stack_after_manifest(old(self).stack@, final(self).stack@, m.members.deep_view(), root@),
    {
        let ghost old_targets = self.targets@;
        let ghost base = self.stack@.drop_last();
        self.stack.pop();
        proof {
            assert(self.stack@ =~= base);
        }
        let mut direct = targets_from_manifest(m, root);
        let ghost direct_view = direct@;
        self.targets.append(&mut direct);
        proof {
            assert(self.targets@.skip(old_targets.len() as int) =~= direct_view);
        }
        let ghost ms = m.members.deep_view();
        let mut k: usize = m.members.len();
        proof {
            assert(ms.skip(k as int) =~= Seq::<Seq<char>>::empty());
            ms.skip(k as int).lemma_filter_len(|mm: Seq<char>| !is_self_reference(mm));
            assert(kept_members(ms.skip(k as int)) =~= Seq::<Seq<char>>::empty());
        }
        while k > 0
            invariant
                k <= ms.len(),
                ms == m.members.deep_view(),
                ms.len() == m.members@.len(),
                self.targets@ == old_targets + direct_view,
                self.stack@.len() == base.len() + kept_members(ms.skip(k as int)).len(),
                forall|i: int| 0 <= i < base.len() ==> self.stack@[i] == base[i],
                forall|i: int|
                    0 <= i < kept_members(ms.skip(k as int)).len() ==> member_item_ok(
                        self.stack@[self.stack@.len() - 1 - i],
                        #[trigger] kept_members(ms.skip(k as int))[i],
                        root@,
                    ),
            decreases k,
        {
            k = k - 1;
            let member = &m.members[k];
            let ghost st0 = self.stack@;
            let skip_it = str_eq(member.as_str(), ".") || str_eq(member.as_str(), "/.");
            if !skip_it {
                let mlen: usize = member.as_str().unicode_len();
                if ends_with_str(member.as_str(), "/*") {
                    proof {
                        reveal_strlit("/*");
                    }
                    let prefix = member.as_str().substring_char(0, mlen - 2);
                    proof {
                        assert(prefix@ =~= ms[k as int].take(ms[k as int].len() - 2));
                    }
                    let joined = crate::select::join_path(root, prefix);
                    self.stack.push(WorkItem::Wildcard(joined));
                } else {
                    let joined = crate::select::join_path(root, member.as_str());
                    self.stack.push(WorkItem::Root(joined));
                }
            }
            proof {
                let pred = |mm: Seq<char>| !is_self_reference(mm);
                assert(ms.skip(k as int) =~= seq![ms[k as int]] + ms.skip(k + 1));
                ms.skip(k + 1).lemma_filter_prepend(ms[k as int], pred);
                assert(kept_members(ms.skip(k as int)) == (if pred(ms[k as int]) {
                    seq![ms[k as int]]
                } else {
                    Seq::<Seq<char>>::empty()
                }) + kept_members(ms.skip(k + 1)));
                if skip_it {
                    assert(is_self_reference(ms[k as int]));
                    assert(kept_members(ms.skip(k as int)) =~= kept_members(ms.skip(k + 1)));
                } else {
                    assert(!is_self_reference(ms[k as int]));
                    let kept = kept_members(ms.skip(k as int));
                    assert(kept =~= seq![ms[k as int]] + kept_members(ms.skip(k + 1)));
                    assert(kept[0] == ms[k as int]);
                    assert(member_item_ok(self.stack@.last(), kept[0], root@));
                    assert forall|i: int| 0 <= i < kept.len() implies member_item_ok(
                        self.stack@[self.stack@.len() - 1 - i],
                        #[trigger] kept[i],
                        root@,
                    ) by {
                        if i > 0 {
                            assert(kept[i] == kept_members(ms.skip(k + 1))[i - 1]);
                            assert(self.stack@[self.stack@.len() - 1 - i] == st0[st0.len() - 1 - (i
                                - 1)]);
                        }
                    }
                }
            }
        }
        proof {
            assert(ms.skip(0) =~= ms);
        }
    }

    /// Takes the directory listing for the pending wildcard prefix on top
    /// of the stack: each listed directory becomes a pending root,
    /// first-listed on top.
    pub fn on_dirs(&mut self, dirs: &Vec<String>, prefix: &str)
        requires
            old(self).stack@.len() > 0,
            is_wildcard_item(old(self).stack@.last(), prefix@),
        ensures
            final(self).targets == old(self).targets,
            stack_after_dirs(old(self).stack@, final(self).stack@, dirs.deep_view(), prefix@),
    {
        let ghost base = self.stack@.drop_last();
        let ghost ds = dirs.deep_view();
        self.stack.pop();
        proof {
            assert(self.stack@ =~= base);
        }
        let mut k: usize = dirs.len();
        while k > 0
            invariant
                k <= ds.len(),
                ds == dirs.deep_view(),
                ds.len() == dirs@.len(),
                self.targets == old(self).targets,
                self.stack@.len() == base.len() + (ds.len() - k),
                forall|i: int| 0 <= i < base.len() ==> self.stack@[i] == base[i],
                forall|i: int|
                    0 <= i < ds.len() - k ==> is_root_item(
                        self.stack@[self.stack@.len() - 1 - i],
                        path_join(prefix@, #[trigger] ds[k + i]),
                    ),
            decreases k,
        {
            k = k - 1;
            let ghost st0 = self.stack@;
            let joined = crate::select::join_path(prefix, dirs[k].as_str());
            self.stack.push(WorkItem::Root(joined));
            proof {
                assert(ds[k as int] == dirs@[k as int]@);
                assert forall|i: int| 0 <= i < ds.len() - k implies is_root_item(
                    self.stack@[self.stack@.len() - 1 - i],
                    path_join(prefix@, #[trigger] ds[k + i]),
                ) by {
                    if i > 0 {
                        assert(self.stack@[self.stack@.len() - 1 - i] == st0[st0.len() - 1 - (i
                            - 1)]);
                        assert(is_root_item(
                            st0[st0.len() - 1 - (i - 1)],
                            path_join(prefix@, ds[(k + 1) + (i - 1)]),
                        ));
                    }
                }
            }
        }
        proof {
            assert forall|i: int| 0 <= i < ds.len() implies is_root_item(
                self.stack@[self.stack@.len() - 1 - i],
                path_join(prefix@, #[trigger] ds[i]),
            ) by {
                assert(is_root_item(
                    self.stack@[self.stack@.len() - 1 - i],
                    path_join(prefix@, ds[0 + i]),
                ));
            }
        }
    }
}

} // verus!
