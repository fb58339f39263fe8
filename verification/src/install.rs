//! The archive installer's planning logic.
//!
//! An update is a full replace: the caller clears the target directory
//! and then carries out the plan computed here.  Planning normalizes
//! the archive layout — when every entry sits under one identical first
//! path segment, that wrapper segment is stripped from every path — and
//! enforces containment: an entry whose path could resolve outside the
//! target directory is rejected and the whole install fails.

use vstd::prelude::*;
use vstd::string::StringExecFns;
use crate::strings::{chars_to_string, str_to_chars};

verus! {

/// One archive entry: its path inside the archive, whether it is a
/// directory, and its bytes.
pub struct ZipEntry {
    pub path: String,
    pub is_dir: bool,
    pub data: Vec<u8>,
}

/// The mathematical value of a [`ZipEntry`].
pub struct EntryV {
    pub path: Seq<char>,
    pub is_dir: bool,
    pub data: Seq<u8>,
}

impl View for ZipEntry {
    type V = EntryV;

    open spec fn view(&self) -> EntryV {
        EntryV { path: self.path@, is_dir: self.is_dir, data: self.data@ }
    }
}

/// What the zip reader finds in an archive: for each entry its
/// sanitized path, whether it is a directory, and its bytes — a
/// function of the archive bytes alone; nothing when the bytes are not
/// a readable archive.
pub uninterp spec fn zip_contents(data: Seq<u8>) -> Option<Seq<(Seq<char>, bool, Seq<u8>)>>;

/// Relies on zip's `ZipArchive::new` and `by_index`, and on
/// `ZipFile::mangled_name`, `ZipFile::is_dir` and `Read::read_to_end`:
/// reads the archive's central directory and hands out every entry's
/// sanitized path, kind, and bytes, in archive order.
#[verifier::external_body]
pub fn read_zip_entries(data: &Vec<u8>) -> (r: Result<Vec<ZipEntry>, String>)
    ensures
        match r {
            Ok(es) => {
                &&& zip_contents(data@) is Some
                &&& es@.len() == zip_contents(data@)->0.len()
                &&& forall|i: int| 0 <= i < es@.len() ==> (#[trigger] es@[i]).path@ == zip_contents(
                    data@,
                )->0[i].0 && es@[i].is_dir == zip_contents(data@)->0[i].1 && es@[i].data@
                    == zip_contents(data@)->0[i].2
            },
            Err(_) => zip_contents(data@) is None,
        },
{
    let cursor = std::io::Cursor::new(data.as_slice());
    let mut archive = zip::ZipArchive::new(cursor).map_err(|e| format!("Failed to read ZIP archive: {}", e))?;
    let mut out = Vec::new();
    for i in 0..archive.len() {
        let mut f = archive.by_index(i).map_err(|e| format!("Failed to read file from ZIP: {}", e))?;
        let path = f.mangled_name().to_string_lossy().to_string();
        let is_dir = f.is_dir();
        let mut bytes = Vec::new();
        if !is_dir {
            std::io::Read::read_to_end(&mut f, &mut bytes).map_err(|e| format!("Failed to extract file: {}", e))?;
        }
        out.push(ZipEntry { path, is_dir, data: bytes });
    }
    Ok(out)
}

// ---------------------------------------------------------------------
// Paths as segment lists.
// ---------------------------------------------------------------------
/// The index of the first '/' in a path, or its length.
pub open spec fn first_slash(p: Seq<char>) -> int
    decreases p.len(),
{
    if p.len() == 0 {
        0
    } else if p[0] == '/' {
        0
    } else {
        1 + first_slash(p.drop_first())
    }
}

proof fn lemma_first_slash_bounds(p: Seq<char>)
    ensures
        0 <= first_slash(p) <= p.len(),
        first_slash(p) < p.len() ==> p[first_slash(p)] == '/',
        forall|k: int| 0 <= k < first_slash(p) ==> p[k] != '/',
    decreases p.len(),
{
    if p.len() == 0 {
    } else if p[0] == '/' {
    } else {
        lemma_first_slash_bounds(p.drop_first());
        if first_slash(p) < p.len() {
            assert(p[first_slash(p)] == p.drop_first()[first_slash(p) - 1]);
        }
        assert forall|k: int| 0 <= k < first_slash(p) implies p[k] != '/' by {
            if k >= 1 {
                assert(p.drop_first()[k - 1] != '/');
            }
        }
    }
}

/// Where the first slash sits, spelled out.
proof fn lemma_first_slash_at(p: Seq<char>, k: int)
    requires
        0 <= k <= p.len(),
        forall|j: int| 0 <= j < k ==> p[j] != '/',
        k == p.len() || p[k] == '/',
    ensures
        first_slash(p) == k,
    decreases k,
{
    if k == 0 {
    } else {
        assert(p[0] != '/');
        lemma_first_slash_at(p.drop_first(), k - 1);
    }
}

/// A path's '/'-separated segments.  The empty path has one empty
/// segment.
pub open spec fn spec_split(p: Seq<char>) -> Seq<Seq<char>>
    decreases p.len(),
{
    let k = first_slash(p);
    if !(0 <= k < p.len()) {
        seq![p]
    } else {
        seq![p.take(k)] + spec_split(p.skip(k + 1))
    }
}

pub open spec fn first_seg(e: EntryV) -> Seq<char> {
    spec_split(e.path)[0]
}

proof fn lemma_spec_split_len(p: Seq<char>)
    ensures
        spec_split(p).len() >= 1,
    decreases p.len(),
{
    lemma_first_slash_bounds(p);
    let k = first_slash(p);
    if k < p.len() {
        lemma_spec_split_len(p.skip(k + 1));
    }
}

/// Split a path into its segments.
#[verifier::loop_isolation(false)]
pub fn split_path(p: &String) -> (r: Vec<String>)
    ensures
        r@.map_values(|s: String| s@) == spec_split(p@),
        r@.len() >= 1,
{
    let cs = str_to_chars(p.as_str());
    let n = cs.len();
    let mut segs: Vec<String> = Vec::new();
    let mut start: usize = 0;
    let mut i: usize = 0;
    proof {
        assert(cs@.skip(0) =~= cs@);
        lemma_spec_split_len(p@);
    }
    while i < n
        invariant
            start <= i <= n,
            spec_split(cs@) == segs@.map_values(|s: String| s@) + spec_split(
                cs@.skip(start as int),
            ),
            forall|k: int| start <= k < i ==> cs@[k] != '/',
        decreases n - i,
    {
        if cs[i] == '/' {
            let ghost tail = cs@.skip(start as int);
            proof {
                assert(forall|j: int| 0 <= j < i - start ==> tail[j] != '/');
                assert(tail[i - start] == '/');
                lemma_first_slash_at(tail, i - start);
                assert(tail.take(i - start) =~= cs@.subrange(start as int, i as int));
                assert(tail.skip(i - start + 1) =~= cs@.skip(i + 1));
            }
            let mut seg: Vec<char> = Vec::new();
            let mut k = start;
            while k < i
                invariant
                    start <= k <= i <= cs@.len(),
                    seg@ == cs@.subrange(start as int, k as int),
                decreases i - k,
            {
                seg.push(cs[k]);
                proof {
                    assert(seg@ =~= cs@.subrange(start as int, k + 1 as int));
                }
                k = k + 1;
            }
            let ghost segs0 = segs@.map_values(|s: String| s@);
            segs.push(chars_to_string(&seg));
            proof {
                assert(segs@.map_values(|s: String| s@) =~= segs0.push(
                    cs@.subrange(start as int, i as int),
                ));
                assert(segs0.push(cs@.subrange(start as int, i as int)) =~= segs0 + seq![
                    cs@.subrange(start as int, i as int)
                ]);
            }
            start = i + 1;
        }
        i = i + 1;
    }
    // the final segment runs to the end of the path
    let ghost tail = cs@.skip(start as int);
    proof {
        assert(forall|j: int| 0 <= j < tail.len() ==> tail[j] != '/');
        lemma_first_slash_at(tail, tail.len() as int);
        assert(spec_split(tail) == seq![tail]);
    }
    let mut seg: Vec<char> = Vec::new();
    let mut k = start;
    while k < n
        invariant
            start <= k <= n,
            seg@ == cs@.subrange(start as int, k as int),
        decreases n - k,
    {
        seg.push(cs[k]);
        proof {
            assert(seg@ =~= cs@.subrange(start as int, k + 1 as int));
        }
        k = k + 1;
    }
    proof {
        assert(seg@ =~= tail);
    }
    let ghost segs0 = segs@.map_values(|s: String| s@);
    segs.push(chars_to_string(&seg));
    proof {
        assert(segs@.map_values(|s: String| s@) =~= segs0.push(tail));
        assert(segs0.push(tail) =~= segs0 + seq![tail]);
    }
    segs
}

// ---------------------------------------------------------------------
// The common wrapper segment.
// ---------------------------------------------------------------------
/// Whether every entry with a non-empty path starts with the given
/// segment.
pub open spec fn agrees(es: Seq<EntryV>, root: Seq<char>) -> bool {
    forall|i: int| 0 <= i < es.len() && (#[trigger] es[i]).path.len() > 0 ==> first_seg(es[i])
        == root
}

/// The wrapper segment to strip: where every non-empty entry path
/// shares one identical first segment, that segment; otherwise nothing.
pub open spec fn spec_common_root(es: Seq<EntryV>) -> Option<Seq<char>>
    decreases es.len(),
{
    if es.len() == 0 {
        None
    } else if es[0].path.len() == 0 {
        spec_common_root(es.drop_first())
    } else if agrees(es.drop_first(), first_seg(es[0])) {
        Some(first_seg(es[0]))
    } else {
        None
    }
}

/// What the common root is, characterized without recursion: it exists
/// exactly when some entry path is non-empty and all non-empty entry
/// paths share their first segment, and it is that segment.
pub proof fn lemma_common_root_characterization(es: Seq<EntryV>)
    ensures
        spec_common_root(es) is Some <==> ((exists|i: int|
            0 <= i < es.len() && (#[trigger] es[i]).path.len() > 0) && (forall|i: int, j: int|
            0 <= i < es.len() && 0 <= j < es.len() && (#[trigger] es[i]).path.len() > 0 && (
            #[trigger] es[j]).path.len() > 0 ==> first_seg(es[i]) == first_seg(es[j]))),
        spec_common_root(es) matches Some(r) ==> forall|i: int|
            0 <= i < es.len() && (#[trigger] es[i]).path.len() > 0 ==> first_seg(es[i]) == r,
    decreases es.len(),
{
    if es.len() == 0 {
    } else {
        let rest = es.drop_first();
        if es[0].path.len() == 0 {
            lemma_common_root_characterization(rest);
            if exists|i: int| 0 <= i < es.len() && (#[trigger] es[i]).path.len() > 0 {
                let w = choose|i: int| 0 <= i < es.len() && (#[trigger] es[i]).path.len() > 0;
                assert(w >= 1);
                assert(rest[w - 1] == es[w]);
                assert(rest[w - 1].path.len() > 0);
            }
            if exists|i: int| 0 <= i < rest.len() && (#[trigger] rest[i]).path.len() > 0 {
                let w = choose|i: int| 0 <= i < rest.len() && (#[trigger] rest[i]).path.len() > 0;
                assert(es[w + 1] == rest[w]);
                assert(es[w + 1].path.len() > 0);
            }
            if forall|i: int, j: int|
                0 <= i < es.len() && 0 <= j < es.len() && (#[trigger] es[i]).path.len() > 0 && (
                #[trigger] es[j]).path.len() > 0 ==> first_seg(es[i]) == first_seg(es[j]) {
                assert forall|i: int, j: int|
                    0 <= i < rest.len() && 0 <= j < rest.len() && (#[trigger] rest[i]).path.len()
                        > 0 && (#[trigger] rest[j]).path.len() > 0 implies first_seg(rest[i])
                    == first_seg(rest[j]) by {
                    assert(rest[i] == es[i + 1]);
                    assert(rest[j] == es[j + 1]);
                    assert(es[i + 1].path.len() > 0 && es[j + 1].path.len() > 0);
                }
            }
            if forall|i: int, j: int|
                0 <= i < rest.len() && 0 <= j < rest.len() && (#[trigger] rest[i]).path.len() > 0
                    && (#[trigger] rest[j]).path.len() > 0 ==> first_seg(rest[i]) == first_seg(
                rest[j],
            ) {
                assert forall|i: int, j: int|
                    0 <= i < es.len() && 0 <= j < es.len() && (#[trigger] es[i]).path.len() > 0
                        && (#[trigger] es[j]).path.len() > 0 implies first_seg(es[i]) == first_seg(
                    es[j],
                ) by {
                    assert(i >= 1 && j >= 1);
                    assert(rest[i - 1] == es[i]);
                    assert(rest[j - 1] == es[j]);
                    assert(rest[i - 1].path.len() > 0 && rest[j - 1].path.len() > 0);
                }
            }
            match spec_common_root(es) {
                Some(r) => {
                    assert forall|i: int|
                        0 <= i < es.len() && (#[trigger] es[i]).path.len() > 0 implies first_seg(
                        es[i],
                    ) == r by {
                        assert(i >= 1);
                        assert(rest[i - 1] == es[i]);
                        assert(rest[i - 1].path.len() > 0);
                    }
                },
                None => {},
            }
        } else {
            let f0 = first_seg(es[0]);
            if agrees(rest, f0) {
                assert forall|i: int, j: int|
                    0 <= i < es.len() && 0 <= j < es.len() && (#[trigger] es[i]).path.len() > 0
                        && (#[trigger] es[j]).path.len() > 0 implies first_seg(es[i]) == first_seg(
                    es[j],
                ) by {
                    if i >= 1 {
                        assert(rest[i - 1] == es[i]);
                        assert(rest[i - 1].path.len() > 0);
                        assert(first_seg(rest[i - 1]) == f0);
                    }
                    if j >= 1 {
                        assert(rest[j - 1] == es[j]);
                        assert(rest[j - 1].path.len() > 0);
                        assert(first_seg(rest[j - 1]) == f0);
                    }
                }
                assert forall|i: int|
                    0 <= i < es.len() && (#[trigger] es[i]).path.len() > 0 implies first_seg(
                    es[i],
                ) == f0 by {
                    if i >= 1 {
                        assert(rest[i - 1] == es[i]);
                        assert(rest[i - 1].path.len() > 0);
                    }
                }
            } else {
                let w = choose|i: int|
                    0 <= i < rest.len() && (#[trigger] rest[i]).path.len() > 0 && first_seg(
                        rest[i],
                    ) != f0;
                assert(es[w + 1] == rest[w]);
                assert(es[w + 1].path.len() > 0 && first_seg(es[w + 1]) != first_seg(es[0]));
            }
        }
    }
}

/// Find the wrapper segment, if all non-empty entry paths share one.
#[verifier::loop_isolation(false)]
pub fn find_common_root(entries: &Vec<ZipEntry>) -> (r: Option<String>)
    ensures
        match r {
            Some(root) => spec_common_root(
                entries@.map_values(|e: ZipEntry| e@),
            ) == Some(root@),
            None => spec_common_root(entries@.map_values(|e: ZipEntry| e@)) is None,
        },
{
    let ghost es = entries@.map_values(|e: ZipEntry| e@);
    let n = entries.len();
    let mut root: Option<String> = None;
    let mut mismatch = false;
    let ghost mut wa: int = 0;
    let ghost mut wb: int = 0;
    for i in 0..n
        invariant
            es == entries@.map_values(|e: ZipEntry| e@),
            n == es.len(),
            match root {
                None => !mismatch && forall|k: int| 0 <= k < i ==> (#[trigger] es[k]).path.len()
                    == 0,
                Some(rt) => {
                    &&& exists|k: int| 0 <= k < i && (#[trigger] es[k]).path.len() > 0
                        && first_seg(es[k]) == rt@
                    &&& (!mismatch ==> forall|k: int|
                        0 <= k < i && (#[trigger] es[k]).path.len() > 0 ==> first_seg(es[k])
                            == rt@)
                },
            },
            mismatch ==> 0 <= wa < i && 0 <= wb < i && es[wa].path.len() > 0 && es[wb].path.len()
                > 0 && first_seg(es[wa]) != first_seg(es[wb]),
    {
        if !entries[i].path.as_str().is_empty() {
            let segs = split_path(&entries[i].path);
            let f = &segs[0];
            proof {
                assert(es[i as int].path.len() > 0);
                assert(f@ == first_seg(es[i as int]));
            }
            match &root {
                None => {
                    root = Some(f.clone());
                },
                Some(rt) => {
                    if !rt.eq(f) {
                        if !mismatch {
                            proof {
                                let k = choose|k: int|
                                    0 <= k < i && (#[trigger] es[k]).path.len() > 0 && first_seg(
                                        es[k],
                                    ) == rt@;
                                wa = k;
                                wb = i as int;
                            }
                            mismatch = true;
                        }
                    }
                },
            }
        }
    }
    proof {
        lemma_common_root_characterization(es);
    }
    if mismatch {
        return None;
    }
    root
}


// ---------------------------------------------------------------------
// The install plan.
// ---------------------------------------------------------------------
/// One planned action, aligned one to one with the archive entries.
/// Paths are relative to the target directory, as segment lists.
#[derive(Debug)]
pub enum PlannedItem {
    Skip,
    MakeDir(Vec<String>),
    WriteFile(Vec<String>, Vec<u8>),
}

/// The mathematical value of a [`PlannedItem`].
pub enum ItemV {
    Skip,
    MakeDir(Seq<Seq<char>>),
    WriteFile(Seq<Seq<char>>, Seq<u8>),
}

impl View for PlannedItem {
    type V = ItemV;

    open spec fn view(&self) -> ItemV {
        match self {
            PlannedItem::Skip => ItemV::Skip,
            PlannedItem::MakeDir(segs) => ItemV::MakeDir(segs@.map_values(|s: String| s@)),
            PlannedItem::WriteFile(segs, data) => ItemV::WriteFile(
                segs@.map_values(|s: String| s@),
                data@,
            ),
        }
    }
}

/// A segment that cannot move the resolved path out of the target
/// directory: non-empty, and neither "." nor "..".
pub open spec fn spec_safe_segment(seg: Seq<char>) -> bool {
    seg.len() > 0 && seg != ".."@ && seg != "."@
}

/// An entry's path relative to the target, after the optional wrapper
/// strip.
pub open spec fn spec_rel_segments(e: EntryV, root: Option<Seq<char>>) -> Seq<Seq<char>> {
    if root is Some {
        spec_split(e.path).drop_first()
    } else {
        spec_split(e.path)
    }
}

/// Whether an entry must be rejected: some relative segment is unsafe,
/// or a file entry resolves to the target directory itself.
pub open spec fn entry_violates(e: EntryV, root: Option<Seq<char>>) -> bool {
    if e.path.len() == 0 {
        false
    } else {
        let rel = spec_rel_segments(e, root);
        (exists|i: int| 0 <= i < rel.len() && !spec_safe_segment(#[trigger] rel[i])) || (!e.is_dir
            && rel.len() == 0)
    }
}

/// The action planned for one entry: entries with empty paths are
/// skipped, a directory entry that resolves to the target itself is
/// skipped, and every other entry makes its directory or writes its
/// bytes at its relative path.
pub open spec fn spec_planned_item(e: EntryV, root: Option<Seq<char>>) -> ItemV {
    if e.path.len() == 0 {
        ItemV::Skip
    } else {
        let rel = spec_rel_segments(e, root);
        if e.is_dir {
            if rel.len() == 0 {
                ItemV::Skip
            } else {
                ItemV::MakeDir(rel)
            }
        } else {
            ItemV::WriteFile(rel, e.data)
        }
    }
}

/// Containment: an accepted entry's planned path has only safe
/// segments and at least one of them, so it resolves strictly inside
/// the target directory.
pub proof fn lemma_planned_paths_contained(e: EntryV, root: Option<Seq<char>>)
    requires
        !entry_violates(e, root),
    ensures
        match spec_planned_item(e, root) {
            ItemV::Skip => true,
            ItemV::MakeDir(rel) => rel.len() > 0 && forall|i: int|
                0 <= i < rel.len() ==> spec_safe_segment(#[trigger] rel[i]),
            ItemV::WriteFile(rel, data) => rel.len() > 0 && forall|i: int|
                0 <= i < rel.len() ==> spec_safe_segment(#[trigger] rel[i]),
        },
{
}

/// Root stripping: when every entry sits under one identical wrapper
/// segment, that segment is removed from every planned path.
pub proof fn lemma_wrapper_stripped(es: Seq<EntryV>, root: Seq<char>)
    requires
        spec_common_root(es) == Some(root),
    ensures
        forall|i: int| 0 <= i < es.len() && (#[trigger] es[i]).path.len() > 0 ==> spec_split(
            es[i].path,
        )[0] == root && spec_rel_segments(es[i], Some(root)) == spec_split(es[i].path).drop_first(),
{
    lemma_common_root_characterization(es);
}

/// No stripping: two entries that disagree on their first segment keep
/// every path unmodified.
pub proof fn lemma_mixed_roots_not_stripped(es: Seq<EntryV>, a: int, b: int)
    requires
        0 <= a < es.len(),
        0 <= b < es.len(),
        es[a].path.len() > 0,
        es[b].path.len() > 0,
        first_seg(es[a]) != first_seg(es[b]),
    ensures
        spec_common_root(es) is None,
        forall|i: int| 0 <= i < es.len() ==> spec_rel_segments(
            #[trigger] es[i],
            spec_common_root(es),
        ) == spec_split(es[i].path),
{
    lemma_common_root_characterization(es);
}

// ---------------------------------------------------------------------
// The tree an install produces.
// ---------------------------------------------------------------------
/// A node in the target directory's tree.
pub enum FsNode {
    Dir,
    File(Seq<u8>),
}

pub open spec fn apply_item(t: Map<Seq<Seq<char>>, FsNode>, it: ItemV) -> Map<
    Seq<Seq<char>>,
    FsNode,
> {
    match it {
        ItemV::Skip => t,
        ItemV::MakeDir(rel) => t.insert(rel, FsNode::Dir),
        ItemV::WriteFile(rel, data) => t.insert(rel, FsNode::File(data)),
    }
}

pub open spec fn apply_items(t: Map<Seq<Seq<char>>, FsNode>, items: Seq<ItemV>) -> Map<
    Seq<Seq<char>>,
    FsNode,
>
    decreases items.len(),
{
    if items.len() == 0 {
        t
    } else {
        apply_items(apply_item(t, items[0]), items.drop_first())
    }
}

/// The tree an install leaves in the target directory.  The target is
/// removed and recreated empty before extraction, so the prior tree
/// plays no part in the result.
pub open spec fn spec_install_tree(
    prior: Map<Seq<Seq<char>>, FsNode>,
    items: Seq<ItemV>,
) -> Map<Seq<Seq<char>>, FsNode> {
    apply_items(Map::empty(), items)
}

/// Idempotence: installing the same plan twice into the same target
/// leaves exactly the tree of a single install, whatever was there
/// before — a full replace, never a merge.
pub proof fn lemma_install_idempotent(prior: Map<Seq<Seq<char>>, FsNode>, items: Seq<ItemV>)
    ensures
        spec_install_tree(spec_install_tree(prior, items), items) == spec_install_tree(
            prior,
            items,
        ),
{
}

// ---------------------------------------------------------------------
// Planning, executable.
// ---------------------------------------------------------------------
/// An entry whose resolved path would not stay inside the target
/// directory; `path` names the offending entry.
#[derive(Debug)]
pub struct InstallError {
    pub path: String,
}

/// The directory a package installs into: its name behind an '@'.
pub fn mod_folder_name(mod_name: &String) -> (r: String)
    ensures
        r@ == "@"@ + mod_name@,
{
    let mut s = String::from_str("@");
    s.append(mod_name.as_str());
    s
}

fn segment_safe(seg: &String) -> (r: bool)
    ensures
        r == spec_safe_segment(seg@),
{
    let dotdot = String::from_str("..");
    let dot = String::from_str(".");
    !seg.as_str().is_empty() && !seg.eq(&dotdot) && !seg.eq(&dot)
}

fn copy_bytes(v: &Vec<u8>) -> (r: Vec<u8>)
    ensures
        r@ == v@,
{
    let mut out: Vec<u8> = Vec::new();
    let n = v.len();
    for i in 0..n
        invariant
            n == v@.len(),
            out@ == v@.subrange(0, i as int),
    {
        out.push(v[i]);
        proof {
            assert(out@ =~= v@.subrange(0, i + 1 as int));
        }
    }
    proof {
        assert(v@.subrange(0, n as int) =~= v@);
    }
    out
}

/// Plan an install: detect and strip the wrapper segment, reject any
/// entry that would escape the target directory, and emit one action
/// per entry.  The plan exists exactly when no entry violates
/// containment.
#[verifier::loop_isolation(false)]
pub fn plan_install(entries: &Vec<ZipEntry>) -> (r: Result<Vec<PlannedItem>, InstallError>)
    ensures
        ({
            let es = entries@.map_values(|e: ZipEntry| e@);
            let root = spec_common_root(es);
            match r {
                Ok(items) => {
                    &&& forall|i: int| 0 <= i < es.len() ==> !entry_violates(
                        #[trigger] es[i],
                        root,
                    )
                    &&& items@.len() == es.len()
                    &&& forall|i: int| 0 <= i < es.len() ==> (#[trigger] items@[i])@
                        == spec_planned_item(es[i], root)
                },
                Err(err) => exists|i: int|
                    0 <= i < es.len() && entry_violates(#[trigger] es[i], root) && err.path@
                        == es[i].path,
            }
        }),
{
    let ghost es = entries@.map_values(|e: ZipEntry| e@);
    let ghost root = spec_common_root(es);
    let root_opt = find_common_root(entries);
    let strip = match &root_opt {
        Some(_) => true,
        None => false,
    };
    proof {
        assert(strip == (root is Some));
    }
    let mut items: Vec<PlannedItem> = Vec::new();
    let n = entries.len();
    for i in 0..n
        invariant
            es == entries@.map_values(|e: ZipEntry| e@),
            root == spec_common_root(es),
            strip == (root is Some),
            n == es.len(),
            items@.len() == i,
            forall|k: int| 0 <= k < i ==> !entry_violates(#[trigger] es[k], root),
            forall|k: int| 0 <= k < i ==> (#[trigger] items@[k])@ == spec_planned_item(
                es[k],
                root,
            ),
    {
        let e = &entries[i];
        proof {
            assert(es[i as int] == e@);
        }
        if e.path.as_str().is_empty() {
            items.push(PlannedItem::Skip);
        } else {
            let segs = split_path(&e.path);
            let mut rel: Vec<String> = Vec::new();
            let lo: usize = if strip {
                1
            } else {
                0
            };
            let m = segs.len();
            let mut j = lo;
            while j < m
                invariant
                    lo <= j <= m,
                    m == segs@.len(),
                    rel@.map_values(|s: String| s@) == segs@.map_values(|s: String| s@).subrange(
                        lo as int,
                        j as int,
                    ),
                decreases m - j,
            {
                let ghost rv = rel@.map_values(|s: String| s@);
                rel.push(segs[j].clone());
                proof {
                    assert(rel@.map_values(|s: String| s@) =~= rv.push(segs@[j as int]@));
                    assert(rv.push(segs@[j as int]@) =~= segs@.map_values(
                        |s: String| s@,
                    ).subrange(lo as int, j + 1 as int));
                }
                j = j + 1;
            }
            proof {
                let sv = segs@.map_values(|s: String| s@);
                if strip {
                    assert(sv.subrange(1, m as int) =~= sv.drop_first());
                } else {
                    assert(sv.subrange(0, m as int) =~= sv);
                }
                assert(rel@.map_values(|s: String| s@) == spec_rel_segments(es[i as int], root));
            }
            let ghost relv = rel@.map_values(|s: String| s@);
            let rn = rel.len();
            let mut k: usize = 0;
            while k < rn
                invariant
                    k <= rn,
                    rn == relv.len(),
                    relv == rel@.map_values(|s: String| s@),
                    forall|q: int| 0 <= q < k ==> spec_safe_segment(#[trigger] relv[q]),
                decreases rn - k,
            {
                if !segment_safe(&rel[k]) {
                    proof {
                        assert(!spec_safe_segment(relv[k as int]));
                        assert(entry_violates(es[i as int], root));
                    }
                    return Err(InstallError { path: e.path.clone() });
                }
                k = k + 1;
            }
            if e.is_dir {
                if rel.len() == 0 {
                    items.push(PlannedItem::Skip);
                } else {
                    items.push(PlannedItem::MakeDir(rel));
                }
            } else {
                if rel.len() == 0 {
                    proof {
                        assert(entry_violates(es[i as int], root));
                    }
                    return Err(InstallError { path: e.path.clone() });
                }
                items.push(PlannedItem::WriteFile(rel, copy_bytes(&e.data)));
            }
        }
    }
    Ok(items)
}

} // verus!
