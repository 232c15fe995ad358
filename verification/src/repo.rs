//! The repository context: the explicitly constructed value that carries the
//! repository root and the file inventory (files in the version-control index
//! plus locally modified paths) into the runner and the engine.
//!
//! The inventory is the single source the crate-discovery functions read:
//! a directory one level below a runtime-crate base directory counts as a
//! crate exactly when its `Cargo.toml` appears in the inventory.

use vstd::prelude::*;

use crate::bytes::{
    ascii_bytes, ascii_view, bytes_eq, push_all, spec_split, spec_trim, split_bytes, starts_with,
    subrange_vec, trim_bytes, LINE_FEED,
};

verus! {

/// Path separator.
pub const SLASH: u8 = 47;

/// One in-scope file: its path and its provenance.
pub struct RepoFile {
    pub path: Vec<u8>,
    /// True for a file in the version-control index, false for a locally
    /// modified one.
    pub in_index: bool,
}

/// The mathematical value of a [`RepoFile`].
pub ghost struct RepoFileView {
    pub path: Seq<u8>,
    pub in_index: bool,
}

impl View for RepoFile {
    type V = RepoFileView;

    open spec fn view(&self) -> RepoFileView {
        RepoFileView { path: self.path@, in_index: self.in_index }
    }
}

impl DeepView for RepoFile {
    type V = RepoFileView;

    open spec fn deep_view(&self) -> RepoFileView {
        self.view()
    }
}

/// Repository metadata, computed once at startup and passed in explicitly.
pub struct RepoContext {
    pub root: Vec<u8>,
    pub files: Vec<RepoFile>,
}

/// The mathematical value of a [`RepoContext`].
pub ghost struct RepoContextView {
    pub root: Seq<u8>,
    pub files: Seq<RepoFileView>,
}

impl View for RepoContext {
    type V = RepoContextView;

    open spec fn view(&self) -> RepoContextView {
        RepoContextView { root: self.root@, files: self.files.deep_view() }
    }
}

/// A line kept from the inventory output: its trimmed path, unless blank.
pub open spec fn keep_path(in_index: bool) -> spec_fn(Seq<u8>) -> Seq<RepoFileView> {
    |l: Seq<u8>|
        if spec_trim(l).len() > 0 {
            seq![RepoFileView { path: spec_trim(l), in_index }]
        } else {
            Seq::empty()
        }
}

/// The files one inventory listing contributes: each line trimmed of blanks,
/// empty lines dropped, in order.
pub open spec fn spec_listing(s: Seq<u8>, in_index: bool) -> Seq<RepoFileView> {
    spec_split(s, LINE_FEED).flat_map(keep_path(in_index))
}

/// Appends the files listed in `s` to `out`.
fn append_listing(out: &mut Vec<RepoFile>, s: &[u8], in_index: bool)
    ensures
        final(out).deep_view() == old(out).deep_view() + spec_listing(s@, in_index),
{
    let lines = split_bytes(s, LINE_FEED);
    let ghost lv = lines.deep_view();
    let mut i: usize = 0;
    proof {
        assert(lv.take(0) =~= Seq::<Seq<u8>>::empty());
        assert(Seq::<Seq<u8>>::empty().flat_map(keep_path(in_index)) =~= Seq::<
            RepoFileView,
        >::empty());
        assert(out.deep_view() =~= old(out).deep_view() + lv.take(0).flat_map(keep_path(in_index)));
    }
    while i < lines.len()
        invariant
            i <= lv.len(),
            lv == lines.deep_view(),
            lv == spec_split(s@, LINE_FEED),
            out.deep_view() == old(out).deep_view() + lv.take(i as int).flat_map(
                keep_path(in_index),
            ),
        decreases lv.len() - i,
    {
        let line = &lines[i];
        let t = trim_bytes(line.as_slice());
        proof {
            assert(lines.deep_view()[i as int] == lines@[i as int].deep_view());
            assert(lines@[i as int].deep_view() =~= line@);
            assert(lv[i as int] == line@);
            assert(t@ == spec_trim(lv[i as int]));
            lv.lemma_flat_map_take_append(keep_path(in_index), i as int);
        }
        let ghost prev = out.deep_view();
        if t.len() > 0 {
            let ghost tv = t@;
            out.push(RepoFile { path: t, in_index });
            proof {
                assert(out.deep_view() =~~= prev.push(RepoFileView { path: tv, in_index }));
                assert(keep_path(in_index)(lv[i as int]) == seq![
                    RepoFileView { path: spec_trim(lv[i as int]), in_index },
                ]);
                assert(prev.push(RepoFileView { path: tv, in_index }) =~= prev + keep_path(in_index)(
                    lv[i as int],
                ));
                assert(out.deep_view() =~= old(out).deep_view() + lv.take(i + 1).flat_map(
                    keep_path(in_index),
                ));
            }
        } else {
            proof {
                assert(keep_path(in_index)(lv[i as int]) == Seq::<RepoFileView>::empty());
                assert(prev + Seq::<RepoFileView>::empty() =~= prev);
                assert(out.deep_view() =~= old(out).deep_view() + lv.take(i + 1).flat_map(
                    keep_path(in_index),
                ));
            }
        }
        i += 1;
    }
    proof {
        assert(lv.take(lv.len() as int) =~= lv);
    }
}

/// Parses the two inventory listings — indexed files first, then locally
/// modified ones — into the in-scope file set, in order.
pub fn parse_vcs_output(index_out: &[u8], changed_out: &[u8]) -> (r: Vec<RepoFile>)
    ensures
        r.deep_view() == spec_listing(index_out@, true) + spec_listing(changed_out@, false),
{
    let mut r: Vec<RepoFile> = Vec::new();
    proof {
        assert(r.deep_view() =~= Seq::<RepoFileView>::empty());
    }
    append_listing(&mut r, index_out, true);
    append_listing(&mut r, changed_out, false);
    proof {
        assert(Seq::<RepoFileView>::empty() + spec_listing(index_out@, true) + spec_listing(
            changed_out@,
            false,
        ) =~= spec_listing(index_out@, true) + spec_listing(changed_out@, false));
    }
    r
}

/// The manifest file name that marks a directory as a crate.
pub open spec fn manifest_suffix() -> Seq<u8> {
    ascii_view("/Cargo.toml"@)
}

/// Whether `p` is the manifest of a directory one level below `base`:
/// `base` + `/` + one non-empty path segment + `/Cargo.toml`.
pub open spec fn direct_manifest(base: Seq<u8>, p: Seq<u8>) -> bool {
    &&& p.len() > base.len() + 1 + manifest_suffix().len()
    &&& (base + seq![SLASH]).is_prefix_of(p)
    &&& manifest_suffix().is_suffix_of(p)
    &&& forall|i: int| base.len() + 1 <= i < p.len() - manifest_suffix().len() ==> p[i] != SLASH
}

/// The crate directory a manifest path belongs to.
pub open spec fn crate_dir_of(p: Seq<u8>) -> Seq<u8> {
    p.take(p.len() - manifest_suffix().len())
}

/// One step of crate discovery: a direct manifest adds its directory, unless
/// that directory was already found.
pub open spec fn crates_step(acc: Seq<Seq<u8>>, base: Seq<u8>, p: Seq<u8>) -> Seq<Seq<u8>> {
    if direct_manifest(base, p) && !acc.contains(crate_dir_of(p)) {
        acc.push(crate_dir_of(p))
    } else {
        acc
    }
}

/// The crate directories found in the first `n` inventory entries.
pub open spec fn crates_prefix(files: Seq<RepoFileView>, base: Seq<u8>, n: int) -> Seq<Seq<u8>>
    decreases n,
{
    if n <= 0 {
        Seq::empty()
    } else {
        crates_step(crates_prefix(files, base, n - 1), base, files[n - 1].path)
    }
}

/// The crate directories one level below `base`, one per manifest in the
/// inventory, each once, in first-appearance order.
pub open spec fn spec_crates_under(files: Seq<RepoFileView>, base: Seq<u8>) -> Seq<Seq<u8>> {
    crates_prefix(files, base, files.len() as int)
}

/// Whether `p` is a direct manifest below `base`.
fn is_direct_manifest(base: &[u8], p: &[u8]) -> (r: bool)
    ensures
        r == direct_manifest(base@, p@),
{
    proof {
        reveal_strlit("/Cargo.toml");
    }
    let sfx = ascii_bytes("/Cargo.toml");
    if p.len() <= sfx.len() {
        return false;
    }
    let mid_end: usize = p.len() - sfx.len();
    if !crate::bytes::ends_with(p, sfx) {
        return false;
    }
    if !starts_with(p, base) {
        return false;
    }
    if mid_end < 2 || base.len() > mid_end - 2 {
        return false;
    }
    if p[base.len()] != SLASH {
        proof {
            assert((base@ + seq![SLASH])[base@.len() as int] == SLASH);
            assert(!(base@ + seq![SLASH]).is_prefix_of(p@)) by {
                if (base@ + seq![SLASH]).is_prefix_of(p@) {
                    assert(p@.subrange(0, base@.len() as int + 1)[base@.len() as int] == SLASH);
                }
            }
        }
        return false;
    }
    let mut i: usize = base.len() + 1;
    while i < mid_end
        invariant
            base@.len() + 1 <= i <= mid_end,
            mid_end == p@.len() - manifest_suffix().len(),
            mid_end <= p@.len(),
            forall|j: int| base@.len() + 1 <= j < i ==> p@[j] != SLASH,
        decreases mid_end - i,
    {
        if p[i] == SLASH {
            return false;
        }
        i += 1;
    }
    proof {
        assert((base@ + seq![SLASH]).is_prefix_of(p@)) by {
            assert(p@.subrange(0, base@.len() as int) =~= base@);
            assert(p@.subrange(0, base@.len() as int + 1) =~= base@ + seq![SLASH]);
        }
    }
    true
}

/// Whether `x` is among the byte strings collected so far.
fn contains_bytes(v: &Vec<Vec<u8>>, x: &[u8]) -> (r: bool)
    ensures
        r == v.deep_view().contains(x@),
{
    let mut found = false;
    let mut i: usize = 0;
    while i < v.len()
        invariant
            i <= v@.len(),
            found == exists|j: int| 0 <= j < i && v.deep_view()[j] == x@,
        decreases v@.len() - i,
    {
        let e = &v[i];
        if bytes_eq(e.as_slice(), x) {
            proof {
                assert(v.deep_view()[i as int] =~= e@);
                assert(v.deep_view()[i as int] == x@);
            }
            found = true;
        } else {
            proof {
                assert(v.deep_view()[i as int] =~= e@);
                assert(v.deep_view()[i as int] != x@);
            }
        }
        i += 1;
    }
    found
}

/// The crate directories one level below `base`, discovered from the
/// inventory's manifests.
fn crates_under(files: &Vec<RepoFile>, base: &[u8]) -> (r: Vec<Vec<u8>>)
    ensures
        r.deep_view() == spec_crates_under(files.deep_view(), base@),
{
    proof {
        reveal_strlit("/Cargo.toml");
    }
    let ghost fv = files.deep_view();
    let sfx_len = ascii_bytes("/Cargo.toml").len();
    let mut r: Vec<Vec<u8>> = Vec::new();
    let mut i: usize = 0;
    proof {
        assert(r.deep_view() =~= crates_prefix(fv, base@, 0));
    }
    while i < files.len()
        invariant
            i <= fv.len(),
            fv == files.deep_view(),
            sfx_len == manifest_suffix().len(),
            r.deep_view() == crates_prefix(fv, base@, i as int),
        decreases fv.len() - i,
    {
        let f = &files[i];
        proof {
            assert(files.deep_view()[i as int] == files@[i as int].deep_view());
            assert(fv[i as int].path == f.path@);
        }
        if is_direct_manifest(base, f.path.as_slice()) {
            let dir = subrange_vec(f.path.as_slice(), 0, f.path.len() - sfx_len);
            proof {
                assert(dir@ =~= crate_dir_of(f.path@));
            }
            if !contains_bytes(&r, dir.as_slice()) {
                let ghost prev = r.deep_view();
                let ghost dv = dir@;
                r.push(dir);
                proof {
                    assert(r.deep_view() =~~= prev.push(dv));
                    assert(r.deep_view() == crates_prefix(fv, base@, i + 1));
                }
            } else {
                proof {
                    assert(r.deep_view() == crates_prefix(fv, base@, i + 1));
                }
            }
        } else {
            proof {
                assert(r.deep_view() == crates_prefix(fv, base@, i + 1));
            }
        }
        i += 1;
    }
    r
}

/// `base` extended with `/` and more path, as the crate-base helpers build it.
fn join_path(base: &[u8], rest: &str) -> (r: Vec<u8>)
    requires
        vstd::string::is_ascii(rest),
    ensures
        r@ == base@ + ascii_view(rest@),
{
    let mut r = subrange_vec(base, 0, base.len());
    proof {
        assert(r@ =~= base@);
    }
    push_all(&mut r, ascii_bytes(rest));
    r
}

/// The base directory of the code generator's runtime crates.
pub open spec fn smithy_crate_base(ctx: RepoContextView) -> Seq<u8> {
    ctx.root + ascii_view("/rust-runtime"@)
}

/// The base directory of the SDK's runtime crates.
pub open spec fn aws_crate_base(ctx: RepoContextView) -> Seq<u8> {
    ctx.root + ascii_view("/aws/rust-runtime"@)
}

/// All runtime crates: the SDK's first, then the code generator's.
pub open spec fn spec_all_runtime_crates(ctx: RepoContextView) -> Seq<Seq<u8>> {
    spec_crates_under(ctx.files, aws_crate_base(ctx)) + spec_crates_under(
        ctx.files,
        smithy_crate_base(ctx),
    )
}

/// The manifest path of a crate directory.
pub open spec fn manifest_of() -> spec_fn(Seq<u8>) -> Seq<u8> {
    |d: Seq<u8>| d + manifest_suffix()
}

impl RepoContext {
    /// Builds the context from the repository root and the file inventory.
    pub fn new(root: Vec<u8>, files: Vec<RepoFile>) -> (c: RepoContext)
        ensures
            c@.root == root@,
            c@.files == files.deep_view(),
    {
        RepoContext { root, files }
    }

    /// The repository root every other path is resolved against.
    pub fn repo_root(&self) -> (r: &Vec<u8>)
        ensures
            r@ == self@.root,
    {
        &self.root
    }

    /// Whether `path` is a crate directory: its manifest is in the inventory.
    pub fn is_crate(&self, path: &[u8]) -> (r: bool)
        ensures
            r == exists|i: int|
                0 <= i < self@.files.len() && self@.files[i].path == path@ + manifest_suffix(),
    {
        proof {
            reveal_strlit("/Cargo.toml");
        }
        let m = join_path(path, "/Cargo.toml");
        let ghost fv = self@.files;
        let mut found = false;
        let mut i: usize = 0;
        while i < self.files.len()
            invariant
                i <= fv.len(),
                fv == self.files.deep_view(),
                m@ == path@ + manifest_suffix(),
                found == exists|j: int| 0 <= j < i && fv[j].path == path@ + manifest_suffix(),
            decreases fv.len() - i,
        {
            let f = &self.files[i];
            proof {
                assert(fv[i as int].path == f.path@);
            }
            if bytes_eq(f.path.as_slice(), m.as_slice()) {
                found = true;
            }
            i += 1;
        }
        found
    }

    /// The crate directories under the code generator's runtime tree.
    pub fn smithy_rs_crates(&self) -> (r: Vec<Vec<u8>>)
        ensures
            r.deep_view() == spec_crates_under(self@.files, smithy_crate_base(self@)),
    {
        proof {
            reveal_strlit("/rust-runtime");
        }
        let base = join_path(self.root.as_slice(), "/rust-runtime");
        crates_under(&self.files, base.as_slice())
    }

    /// The crate directories under the SDK's runtime tree.
    pub fn aws_runtime_crates(&self) -> (r: Vec<Vec<u8>>)
        ensures
            r.deep_view() == spec_crates_under(self@.files, aws_crate_base(self@)),
    {
        proof {
            reveal_strlit("/aws/rust-runtime");
        }
        let base = join_path(self.root.as_slice(), "/aws/rust-runtime");
        crates_under(&self.files, base.as_slice())
    }

    /// Every runtime crate directory, the SDK's first.
    pub fn all_runtime_crates(&self) -> (r: Vec<Vec<u8>>)
        ensures
            r.deep_view() == spec_all_runtime_crates(self@),
    {
        let mut r = self.aws_runtime_crates();
        let ghost aws = r.deep_view();
        let mut s = self.smithy_rs_crates();
        let ghost smithy = s.deep_view();
        r.append(&mut s);
        proof {
            assert(r.deep_view() =~~= aws + smithy);
        }
        r
    }

    /// The manifest path of every runtime crate, in the same order.
    pub fn all_cargo_tomls(&self) -> (r: Vec<Vec<u8>>)
        ensures
            r.deep_view() == spec_all_runtime_crates(self@).map_values(manifest_of()),
    {
        proof {
            reveal_strlit("/Cargo.toml");
        }
        let crates = self.all_runtime_crates();
        let ghost cd = crates.deep_view();
        let mut r: Vec<Vec<u8>> = Vec::new();
        let mut i: usize = 0;
        proof {
            assert(r.deep_view() =~= cd.take(0).map_values(manifest_of()));
        }
        while i < crates.len()
            invariant
                i <= cd.len(),
                cd == crates.deep_view(),
                r.deep_view() == cd.take(i as int).map_values(manifest_of()),
            decreases cd.len() - i,
        {
            let c = &crates[i];
            proof {
                reveal_strlit("/Cargo.toml");
                assert(cd[i as int] =~= c@);
            }
            let m = join_path(c.as_slice(), "/Cargo.toml");
            let ghost prev = r.deep_view();
            let ghost mv = m@;
            r.push(m);
            proof {
                assert(r.deep_view() =~~= prev.push(mv));
                assert(mv == manifest_of()(cd[i as int]));
                assert(prev.push(mv) =~= cd.take(i + 1).map_values(manifest_of()));
            }
            i += 1;
        }
        proof {
            assert(cd.take(cd.len() as int) =~= cd);
        }
        r
    }
}

} // verus!
