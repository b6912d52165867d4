use vstd::prelude::*;
use crate::text::push_char;

verus! {

/// A request for the preview tree of an export bundle.
pub struct BundleTreeRequest {
    pub node_ids: Vec<String>,
}

/// A request to export a bundle.
pub struct ExportBundleRequest {
    pub node_ids: Vec<String>,
    pub title: Option<String>,
    pub description: Option<String>,
    pub include_assets: bool,
}

/// One entry of the preview tree of an export bundle.
pub struct BundleTreeNode {
    pub name: String,
    pub path: String,
    pub node_type: String,
    pub is_directory: bool,
    pub children: Option<Vec<BundleTreeNode>>,
    pub size: Option<u64>,
    pub file_count: Option<usize>,
}

/// The preview tree of an export bundle with its totals.
pub struct BundleTreeResponse {
    pub tree: BundleTreeNode,
    pub total_files: usize,
    pub total_directories: usize,
    pub total_size: u64,
    pub includes_assets: bool,
}

/// What an export produced.
pub struct ExportBundleResponse {
    pub download_url: String,
    pub bundle_id: String,
    pub filename: String,
    pub size: u64,
    pub expires_at: String,
}

/// An entry found while scanning a directory on disk.
pub struct ScannedEntry {
    /// The entry's file name, when it is valid UTF-8.
    pub file_name: Option<String>,
    /// The entry's full path.
    pub path: String,
    /// The file extension, when there is one and it is valid UTF-8.
    pub extension: Option<String>,
    pub is_dir: bool,
    /// Size in bytes (files).
    pub size: u64,
    /// The scanned contents (directories).
    pub children: Vec<ScannedEntry>,
}

/// Number of files in a scanned entry (a file counts one).
pub open spec fn entry_files(e: ScannedEntry) -> nat
    decreases e,
{
    if e.is_dir { entries_files(e.children@) } else { 1 }
}

/// Number of files in a list of scanned entries.
pub open spec fn entries_files(s: Seq<ScannedEntry>) -> nat
    decreases s,
{
    if s.len() == 0 { 0 } else { entries_files(s.drop_last()) + entry_files(s.last()) }
}

/// Number of directories below a scanned entry (a file has none; a
/// directory counts each directory inside it, at any depth).
pub open spec fn entry_dirs(e: ScannedEntry) -> nat
    decreases e,
{
    if e.is_dir { entries_dirs(e.children@) } else { 0 }
}

/// Number of directories in a list of scanned entries, themselves included.
pub open spec fn entries_dirs(s: Seq<ScannedEntry>) -> nat
    decreases s,
{
    if s.len() == 0 {
        0
    } else {
        entries_dirs(s.drop_last()) + (if s.last().is_dir { entry_dirs(s.last()) + 1 } else { 0 })
    }
}

/// Total size of the files in a scanned entry.
pub open spec fn entry_bytes(e: ScannedEntry) -> nat
    decreases e,
{
    if e.is_dir { entries_bytes(e.children@) } else { e.size as nat }
}

/// Total size of the files in a list of scanned entries.
pub open spec fn entries_bytes(s: Seq<ScannedEntry>) -> nat
    decreases s,
{
    if s.len() == 0 { 0 } else { entries_bytes(s.drop_last()) + entry_bytes(s.last()) }
}

/// A scanned entry followed by every entry found inside it, at any depth
/// (the contents of a directory are looked into, those of a file are not).
pub open spec fn entry_and_below(e: ScannedEntry) -> Seq<ScannedEntry>
    decreases e,
{
    seq![e] + (if e.is_dir { all_scanned(e.children@) } else { Seq::empty() })
}

/// Every entry of a list of scanned entries and every entry found inside
/// them, at any depth.
pub open spec fn all_scanned(s: Seq<ScannedEntry>) -> Seq<ScannedEntry>
    decreases s,
{
    if s.len() == 0 { Seq::empty() } else { all_scanned(s.drop_last()) + entry_and_below(s.last()) }
}

/// The directories among a list of entries.
pub open spec fn directories_among(s: Seq<ScannedEntry>) -> Seq<ScannedEntry> {
    s.filter(|x: ScannedEntry| x.is_dir)
}

/// The files among a list of entries.
pub open spec fn files_among(s: Seq<ScannedEntry>) -> Seq<ScannedEntry> {
    s.filter(|x: ScannedEntry| !x.is_dir)
}

/// The type label of a scanned entry: `core/fs/dir` for directories,
/// `core/fs/file/<ext>` for files with an extension, `core/fs/file` otherwise.
pub open spec fn entry_type(e: ScannedEntry) -> Seq<char> {
    if e.is_dir {
        "core/fs/dir"@
    } else {
        match e.extension {
            Some(x) => "core/fs/file/"@ + x@,
            None => "core/fs/file"@,
        }
    }
}

/// The display name of a scanned entry (`Unknown` when it has none).
pub open spec fn entry_name(e: ScannedEntry) -> Seq<char> {
    match e.file_name {
        Some(n) => n@,
        None => "Unknown"@,
    }
}

/// `node` is the preview of the scanned entry `e`.
pub open spec fn node_mirrors(node: BundleTreeNode, e: ScannedEntry) -> bool
    decreases e,
{
    &&& node.name@ == entry_name(e)
    &&& node.path@ == e.path@
    &&& node.node_type@ == entry_type(e)
    &&& node.is_directory == e.is_dir
    &&& if e.is_dir {
        &&& node.size is None
        &&& node.file_count == Some(entries_files(e.children@) as usize)
        &&& node.children is Some
        &&& nodes_mirror(node.children->0@, e.children@)
    } else {
        &&& node.size == Some(e.size)
        &&& node.file_count is None
        &&& node.children is None
    }
}

/// Each node is the preview of the entry at the same position.
pub open spec fn nodes_mirror(nodes: Seq<BundleTreeNode>, s: Seq<ScannedEntry>) -> bool
    decreases s,
{
    &&& nodes.len() == s.len()
    &&& if s.len() == 0 {
        true
    } else {
        nodes_mirror(nodes.drop_last(), s.drop_last()) && node_mirrors(nodes.last(), s.last())
    }
}

/// The totals of a list of scanned entries fit the counters.
pub open spec fn entries_fit(s: Seq<ScannedEntry>) -> bool {
    entries_files(s) <= usize::MAX && entries_dirs(s) <= usize::MAX && entries_bytes(s) <= u64::MAX
}

fn append_str(out: &mut String, s: &str)
    ensures
        final(out)@ == old(out)@ + s@,
{
    out.append(s);
}

fn scanned_type(e: &ScannedEntry) -> (res: String)
    ensures
        res@ == entry_type(*e),
{
    proof {
        reveal_strlit("core/fs/dir");
        reveal_strlit("core/fs/file/");
        reveal_strlit("core/fs/file");
    }
    if e.is_dir {
        String::from_str("core/fs/dir")
    } else {
        match &e.extension {
            Some(x) => {
                let mut s = String::from_str("core/fs/file/");
                append_str(&mut s, x.as_str());
                s
            },
            None => String::from_str("core/fs/file"),
        }
    }
}

proof fn lemma_nodes_mirror_push(nodes: Seq<BundleTreeNode>, s: Seq<ScannedEntry>, n: BundleTreeNode, e: ScannedEntry)
    requires
        nodes_mirror(nodes, s),
        node_mirrors(n, e),
    ensures
        nodes_mirror(nodes.push(n), s.push(e)),
{
    assert(nodes.push(n).drop_last() =~= nodes);
    assert(s.push(e).drop_last() =~= s);
}

proof fn lemma_prefix_totals_bounded(s: Seq<ScannedEntry>, i: int)
    requires
        0 <= i < s.len(),
    ensures
        entries_files(s.subrange(0, i + 1)) <= entries_files(s),
        entries_dirs(s.subrange(0, i + 1)) <= entries_dirs(s),
        entries_bytes(s.subrange(0, i + 1)) <= entries_bytes(s),
    decreases s.len(),
{
    if i + 1 < s.len() {
        lemma_prefix_totals_bounded(s.drop_last(), i);
        assert(s.drop_last().subrange(0, i + 1) =~= s.subrange(0, i + 1));
    } else {
        assert(s.subrange(0, i + 1) =~= s);
    }
}

proof fn lemma_single_entry_kinds(e: ScannedEntry)
    ensures
        directories_among(seq![e]).len() == (if e.is_dir { 1nat } else { 0nat }),
        files_among(seq![e]).len() == (if e.is_dir { 0nat } else { 1nat }),
{
    reveal_with_fuel(Seq::filter, 2);
    assert(seq![e].drop_last() =~= Seq::<ScannedEntry>::empty());
    assert(seq![e].last() == e);
}

proof fn lemma_entry_kinds(e: ScannedEntry)
    ensures
        directories_among(entry_and_below(e)).len() == entry_dirs(e) + (if e.is_dir { 1nat } else { 0nat }),
        files_among(entry_and_below(e)).len() == entry_files(e),
    decreases e,
{
    broadcast use Seq::filter_distributes_over_add;
    lemma_single_entry_kinds(e);
    let below = if e.is_dir { all_scanned(e.children@) } else { Seq::empty() };
    assert(entry_and_below(e) == seq![e] + below);
    if e.is_dir {
        lemma_totals_count_every_entry(e.children@);
    } else {
        reveal_with_fuel(Seq::filter, 1);
        assert(directories_among(below) =~= Seq::<ScannedEntry>::empty());
        assert(files_among(below) =~= Seq::<ScannedEntry>::empty());
    }
    assert(directories_among(seq![e] + below) == directories_among(seq![e]) + directories_among(below));
    assert(files_among(seq![e] + below) == files_among(seq![e]) + files_among(below));
}

/// Every scanned entry counts once towards the totals, whatever it holds:
/// the number of directories of a list is the number of directories among
/// its entries at any depth (an empty directory included), and the number
/// of files is the number of files among them.
pub proof fn lemma_totals_count_every_entry(s: Seq<ScannedEntry>)
    ensures
        entries_dirs(s) == directories_among(all_scanned(s)).len(),
        entries_files(s) == files_among(all_scanned(s)).len(),
    decreases s,
{
    broadcast use Seq::filter_distributes_over_add;
    if s.len() > 0 {
        lemma_totals_count_every_entry(s.drop_last());
        lemma_entry_kinds(s.last());
        let a = all_scanned(s.drop_last());
        let b = entry_and_below(s.last());
        assert(directories_among(a + b) == directories_among(a) + directories_among(b));
        assert(files_among(a + b) == files_among(a) + files_among(b));
    } else {
        reveal_with_fuel(Seq::filter, 1);
        assert(directories_among(all_scanned(s)) =~= Seq::<ScannedEntry>::empty());
        assert(files_among(all_scanned(s)) =~= Seq::<ScannedEntry>::empty());
    }
}

/// Builds the preview of a list of scanned entries, with the number of
/// files and the number of directories among the entries at any depth (each
/// directory counts once, an empty one too) and the total size.
pub fn preview_entries(entries: &Vec<ScannedEntry>) -> (res: (Vec<BundleTreeNode>, usize, usize, u64))
    requires
        entries_fit(entries@),
    ensures
        nodes_mirror(res.0@, entries@),
        res.1 == entries_files(entries@),
        res.2 == entries_dirs(entries@),
        res.3 == entries_bytes(entries@),
        res.1 == files_among(all_scanned(entries@)).len(),
        res.2 == directories_among(all_scanned(entries@)).len(),
    decreases entries@,
{
    let mut nodes: Vec<BundleTreeNode> = Vec::new();
    let mut files: usize = 0;
    let mut dirs: usize = 0;
    let mut bytes: u64 = 0;
    let mut i: usize = 0;
    while i < entries.len()
        invariant
            i <= entries@.len(),
            entries_fit(entries@),
            nodes_mirror(nodes@, entries@.subrange(0, i as int)),
            files == entries_files(entries@.subrange(0, i as int)),
            dirs == entries_dirs(entries@.subrange(0, i as int)),
            bytes == entries_bytes(entries@.subrange(0, i as int)),
        decreases entries@.len() - i,
    {
        let e = &entries[i];
        let ghost pre = entries@.subrange(0, i as int);
        let ghost next = entries@.subrange(0, i + 1);
        proof {
            assert(next.drop_last() =~= pre);
            assert(next.last() == *e);
            lemma_prefix_totals_bounded(entries@, i as int);
            assert(entries_files(next) == entries_files(pre) + entry_files(*e));
            assert(entries_dirs(next) == entries_dirs(pre) + (if e.is_dir { entry_dirs(*e) + 1 } else { 0 }));
            assert(entries_bytes(next) == entries_bytes(pre) + entry_bytes(*e));
            if e.is_dir {
                assert(entry_files(*e) == entries_files(e.children@));
                assert(entry_dirs(*e) == entries_dirs(e.children@));
                assert(entry_bytes(*e) == entries_bytes(e.children@));
            } else {
                assert(entry_files(*e) == 1);
                assert(entry_bytes(*e) == e.size);
            }
        }
        let name = match &e.file_name {
            Some(n) => n.clone(),
            None => {
                proof { reveal_strlit("Unknown"); }
                String::from_str("Unknown")
            },
        };
        let node_type = scanned_type(e);
        if e.is_dir {
            proof {
                assert(entries_files(e.children@) <= entries_files(next));
                assert(entries_dirs(e.children@) <= entries_dirs(next));
                assert(entries_bytes(e.children@) <= entries_bytes(next));
            }
            let (sub, sub_files, sub_dirs, sub_bytes) = preview_entries(&e.children);
            files = files + sub_files;
            dirs = dirs + sub_dirs + 1;
            bytes = bytes + sub_bytes;
            let node = BundleTreeNode {
                name,
                path: e.path.clone(),
                node_type,
                is_directory: true,
                children: Some(sub),
                size: None,
                file_count: Some(sub_files),
            };
            proof {
                lemma_nodes_mirror_push(nodes@, pre, node, *e);
            }
            nodes.push(node);
        } else {
            files = files + 1;
            bytes = bytes + e.size;
            let node = BundleTreeNode {
                name,
                path: e.path.clone(),
                node_type,
                is_directory: false,
                children: None,
                size: Some(e.size),
                file_count: None,
            };
            proof {
                lemma_nodes_mirror_push(nodes@, pre, node, *e);
            }
            nodes.push(node);
        }
        proof {
            assert(pre.push(*e) =~= next);
        }
        i = i + 1;
    }
    proof {
        assert(entries@.subrange(0, entries@.len() as int) =~= entries@);
        lemma_totals_count_every_entry(entries@);
    }
    (nodes, files, dirs, bytes)
}

/// The number of files, the number of directories and the total size of a
/// list of scanned entries (as `preview_entries` counts them), when each
/// fits its machine integer.
pub fn entries_totals(entries: &Vec<ScannedEntry>) -> (res: Option<(usize, usize, u64)>)
    ensures
        match res {
            Some(t) => entries_fit(entries@) && t.0 == entries_files(entries@) && t.1 == entries_dirs(entries@)
                && t.2 == entries_bytes(entries@) && t.0 == files_among(all_scanned(entries@)).len()
                && t.1 == directories_among(all_scanned(entries@)).len(),
            None => !entries_fit(entries@),
        },
    decreases entries@,
{
    let mut files: usize = 0;
    let mut dirs: usize = 0;
    let mut bytes: u64 = 0;
    let mut i: usize = 0;
    while i < entries.len()
        invariant
            i <= entries@.len(),
            files == entries_files(entries@.subrange(0, i as int)),
            dirs == entries_dirs(entries@.subrange(0, i as int)),
            bytes == entries_bytes(entries@.subrange(0, i as int)),
        decreases entries@.len() - i,
    {
        let e = &entries[i];
        let ghost pre = entries@.subrange(0, i as int);
        let ghost next = entries@.subrange(0, i + 1);
        proof {
            assert(next.drop_last() =~= pre);
            assert(next.last() == *e);
            lemma_prefix_totals_bounded(entries@, i as int);
            assert(entries_files(next) == entries_files(pre) + entry_files(*e));
            assert(entries_dirs(next) == entries_dirs(pre) + (if e.is_dir { entry_dirs(*e) + 1 } else { 0 }));
            assert(entries_bytes(next) == entries_bytes(pre) + entry_bytes(*e));
            if e.is_dir {
                assert(entry_files(*e) == entries_files(e.children@));
                assert(entry_dirs(*e) == entries_dirs(e.children@));
                assert(entry_bytes(*e) == entries_bytes(e.children@));
            } else {
                assert(entry_files(*e) == 1);
                assert(entry_bytes(*e) == e.size);
            }
        }
        if e.is_dir {
            let (sub_files, sub_dirs, sub_bytes) = match entries_totals(&e.children) {
                Some(t) => t,
                None => {
                    return None;
                },
            };
            let f = match files.checked_add(sub_files) {
                Some(f) => f,
                None => {
                    return None;
                },
            };
            let d0 = match dirs.checked_add(sub_dirs) {
                Some(d) => d,
                None => {
                    return None;
                },
            };
            let d = match d0.checked_add(1) {
                Some(d) => d,
                None => {
                    return None;
                },
            };
            let b = match bytes.checked_add(sub_bytes) {
                Some(b) => b,
                None => {
                    return None;
                },
            };
            files = f;
            dirs = d;
            bytes = b;
        } else {
            let f = match files.checked_add(1) {
                Some(f) => f,
                None => {
                    return None;
                },
            };
            let b = match bytes.checked_add(e.size) {
                Some(b) => b,
                None => {
                    return None;
                },
            };
            files = f;
            bytes = b;
        }
        proof {
            assert(pre.push(*e) =~= next);
        }
        i = i + 1;
    }
    proof {
        assert(entries@.subrange(0, entries@.len() as int) =~= entries@);
        lemma_totals_count_every_entry(entries@);
    }
    Some((files, dirs, bytes))
}

} // verus!

verus! {

/// A node selected for export, as found on disk.
pub enum SelectedItem {
    /// Not on disk, or its metadata could not be read: listed as an empty file.
    Absent { name: String, path: String, node_type: String },
    /// A file of the given size.
    File { name: String, path: String, node_type: String, size: u64 },
    /// A directory with its scanned contents.
    Directory { name: String, path: String, node_type: String, contents: Vec<ScannedEntry> },
}

/// Files contributed by a selected item.
pub open spec fn item_files(it: SelectedItem) -> nat {
    match it {
        SelectedItem::Absent { .. } => 1,
        SelectedItem::File { .. } => 1,
        SelectedItem::Directory { contents, .. } => entries_files(contents@),
    }
}

/// Directories contributed by a selected item (a directory counts itself).
pub open spec fn item_dirs(it: SelectedItem) -> nat {
    match it {
        SelectedItem::Directory { contents, .. } => entries_dirs(contents@) + 1,
        _ => 0,
    }
}

/// Bytes contributed by a selected item.
pub open spec fn item_bytes(it: SelectedItem) -> nat {
    match it {
        SelectedItem::Absent { .. } => 0,
        SelectedItem::File { size, .. } => size as nat,
        SelectedItem::Directory { contents, .. } => entries_bytes(contents@),
    }
}

/// Sum of `item_files` over a list.
pub open spec fn items_files(s: Seq<SelectedItem>) -> nat
    decreases s.len(),
{
    if s.len() == 0 { 0 } else { items_files(s.drop_last()) + item_files(s.last()) }
}

/// Sum of `item_dirs` over a list.
pub open spec fn items_dirs(s: Seq<SelectedItem>) -> nat
    decreases s.len(),
{
    if s.len() == 0 { 0 } else { items_dirs(s.drop_last()) + item_dirs(s.last()) }
}

/// Sum of `item_bytes` over a list.
pub open spec fn items_bytes(s: Seq<SelectedItem>) -> nat
    decreases s.len(),
{
    if s.len() == 0 { 0 } else { items_bytes(s.drop_last()) + item_bytes(s.last()) }
}

/// `node` is the preview of the selected item `it`.
pub open spec fn item_mirrors(node: BundleTreeNode, it: SelectedItem) -> bool {
    match it {
        SelectedItem::Absent { name, path, node_type } => {
            &&& node.name@ == name@ && node.path@ == path@ && node.node_type@ == node_type@
            &&& !node.is_directory && node.children is None && node.size == Some(0u64)
            &&& node.file_count is None
        },
        SelectedItem::File { name, path, node_type, size } => {
            &&& node.name@ == name@ && node.path@ == path@ && node.node_type@ == node_type@
            &&& !node.is_directory && node.children is None && node.size == Some(size)
            &&& node.file_count is None
        },
        SelectedItem::Directory { name, path, node_type, contents } => {
            &&& node.name@ == name@ && node.path@ == path@ && node.node_type@ == node_type@
            &&& node.is_directory && node.size is None
            &&& node.file_count == Some(entries_files(contents@) as usize)
            &&& node.children is Some && nodes_mirror(node.children->0@, contents@)
        },
    }
}

proof fn lemma_items_prefix_bounded(s: Seq<SelectedItem>, i: int)
    requires
        0 <= i < s.len(),
    ensures
        items_files(s.subrange(0, i + 1)) <= items_files(s),
        items_dirs(s.subrange(0, i + 1)) <= items_dirs(s),
        items_bytes(s.subrange(0, i + 1)) <= items_bytes(s),
    decreases s.len(),
{
    if i + 1 < s.len() {
        lemma_items_prefix_bounded(s.drop_last(), i);
        assert(s.drop_last().subrange(0, i + 1) =~= s.subrange(0, i + 1));
    } else {
        assert(s.subrange(0, i + 1) =~= s);
    }
}

/// The totals of the selected items fit their machine integers.
pub open spec fn items_fit(items: Seq<SelectedItem>) -> bool {
    items_files(items) <= usize::MAX && items_dirs(items) <= usize::MAX && items_bytes(items) <= u64::MAX
}

/// `res` is the preview of an export bundle of `items`; see `bundle_tree`.
pub open spec fn bundle_preview(items: Seq<SelectedItem>, res: BundleTreeResponse) -> bool {
    &&& res.total_files == items_files(items)
    &&& res.total_directories == items_dirs(items)
    &&& res.total_size == items_bytes(items)
    &&& res.includes_assets
    &&& res.tree.name@ == "Export Bundle"@
    &&& res.tree.path@ == "/"@
    &&& res.tree.node_type@ == "bundle"@
    &&& res.tree.is_directory
    &&& res.tree.size is None
    &&& res.tree.file_count == Some(res.total_files)
    &&& res.tree.children is Some
    &&& res.tree.children->0@.len() == items.len()
    &&& forall|i: int| 0 <= i < items.len() ==> item_mirrors(#[trigger] res.tree.children->0@[i], items[i])
}

/// Whether the totals of the selected items fit their machine integers.
pub fn totals_fit(items: &Vec<SelectedItem>) -> (res: bool)
    ensures
        res == items_fit(items@),
{
    let mut files: usize = 0;
    let mut dirs: usize = 0;
    let mut bytes: u64 = 0;
    let mut i: usize = 0;
    while i < items.len()
        invariant
            i <= items@.len(),
            files == items_files(items@.subrange(0, i as int)),
            dirs == items_dirs(items@.subrange(0, i as int)),
            bytes == items_bytes(items@.subrange(0, i as int)),
        decreases items@.len() - i,
    {
        let ghost pre = items@.subrange(0, i as int);
        let ghost next = items@.subrange(0, i + 1);
        proof {
            assert(next.drop_last() =~= pre);
            lemma_items_prefix_bounded(items@, i as int);
        }
        let (f_add, d_add, b_add): (usize, usize, u64) = match &items[i] {
            SelectedItem::Absent { .. } => (1, 0, 0),
            SelectedItem::File { size, .. } => (1, 0, *size),
            SelectedItem::Directory { contents, .. } => match entries_totals(contents) {
                Some((f, d, b)) => match d.checked_add(1) {
                    Some(d1) => (f, d1, b),
                    None => {
                        return false;
                    },
                },
                None => {
                    return false;
                },
            },
        };
        assert(items_files(next) == files + f_add);
        assert(items_dirs(next) == dirs + d_add);
        assert(items_bytes(next) == bytes + b_add);
        files = match files.checked_add(f_add) {
            Some(f) => f,
            None => {
                return false;
            },
        };
        dirs = match dirs.checked_add(d_add) {
            Some(d) => d,
            None => {
                return false;
            },
        };
        bytes = match bytes.checked_add(b_add) {
            Some(b) => b,
            None => {
                return false;
            },
        };
        i = i + 1;
    }
    assert(items@.subrange(0, items@.len() as int) =~= items@);
    true
}

/// The preview of an export bundle (see `bundle_tree`), or `None` when its
/// totals do not fit their machine integers.
pub fn try_bundle_tree(items: &Vec<SelectedItem>) -> (res: Option<BundleTreeResponse>)
    ensures
        res is None <==> !items_fit(items@),
        res matches Some(r) ==> bundle_preview(items@, r),
{
    if totals_fit(items) {
        Some(bundle_tree(items))
    } else {
        None
    }
}

/// Builds the preview of an export bundle: one entry per selected item
/// under a root entry named `Export Bundle`, with the number of files (an
/// absent item counts as one empty file), the number of directories (each
/// selected directory and every directory inside it) and the total size.
pub fn bundle_tree(items: &Vec<SelectedItem>) -> (res: BundleTreeResponse)
    requires
        items_fit(items@),
    ensures
        bundle_preview(items@, res),
{
    let mut children: Vec<BundleTreeNode> = Vec::new();
    let mut files: usize = 0;
    let mut dirs: usize = 0;
    let mut bytes: u64 = 0;
    let mut i: usize = 0;
    while i < items.len()
        invariant
            i <= items@.len(),
            items_files(items@) <= usize::MAX,
            items_dirs(items@) <= usize::MAX,
            items_bytes(items@) <= u64::MAX,
            children@.len() == i,
            forall|j: int| 0 <= j < i ==> item_mirrors(#[trigger] children@[j], items@[j]),
            files == items_files(items@.subrange(0, i as int)),
            dirs == items_dirs(items@.subrange(0, i as int)),
            bytes == items_bytes(items@.subrange(0, i as int)),
        decreases items@.len() - i,
    {
        let ghost pre = items@.subrange(0, i as int);
        let ghost next = items@.subrange(0, i + 1);
        proof {
            assert(next.drop_last() =~= pre);
            lemma_items_prefix_bounded(items@, i as int);
        }
        let node = match &items[i] {
            SelectedItem::Absent { name, path, node_type } => {
                files = files + 1;
                BundleTreeNode {
                    name: name.clone(),
                    path: path.clone(),
                    node_type: node_type.clone(),
                    is_directory: false,
                    children: None,
                    size: Some(0),
                    file_count: None,
                }
            },
            SelectedItem::File { name, path, node_type, size } => {
                files = files + 1;
                bytes = bytes + *size;
                BundleTreeNode {
                    name: name.clone(),
                    path: path.clone(),
                    node_type: node_type.clone(),
                    is_directory: false,
                    children: None,
                    size: Some(*size),
                    file_count: None,
                }
            },
            SelectedItem::Directory { name, path, node_type, contents } => {
                let (sub, sub_files, sub_dirs, sub_bytes) = preview_entries(contents);
                files = files + sub_files;
                dirs = dirs + sub_dirs + 1;
                bytes = bytes + sub_bytes;
                BundleTreeNode {
                    name: name.clone(),
                    path: path.clone(),
                    node_type: node_type.clone(),
                    is_directory: true,
                    children: Some(sub),
                    size: None,
                    file_count: Some(sub_files),
                }
            },
        };
        children.push(node);
        i = i + 1;
    }
    proof {
        assert(items@.subrange(0, items@.len() as int) =~= items@);
        reveal_strlit("Export Bundle");
        reveal_strlit("/");
        reveal_strlit("bundle");
    }
    let tree = BundleTreeNode {
        name: String::from_str("Export Bundle"),
        path: String::from_str("/"),
        node_type: String::from_str("bundle"),
        is_directory: true,
        children: Some(children),
        size: None,
        file_count: Some(files),
    };
    BundleTreeResponse { tree, total_files: files, total_directories: dirs, total_size: bytes, includes_assets: true }
}

} // verus!

verus! {

/// Whether `char::is_alphanumeric` holds of the character (Unicode
/// `Alphabetic` or `Numeric`).
pub uninterp spec fn alphanumeric(c: char) -> bool;

/// Trusted: calls `char::is_alphanumeric`, whose result depends on the
/// character alone and is named `alphanumeric`.
#[verifier::external_body]
fn is_alphanumeric(c: char) -> (res: bool)
    ensures
        res == alphanumeric(c),
{
    c.is_alphanumeric()
}

/// The characters kept in an export file name.
pub open spec fn filename_char(c: char) -> bool {
    alphanumeric(c) || c == '-' || c == '_'
}

/// The characters of `s` that may stand in a file name, in order.
pub open spec fn filename_chars(s: Seq<char>) -> Seq<char>
    decreases s.len(),
{
    if s.len() == 0 {
        Seq::empty()
    } else if filename_char(s.last()) {
        filename_chars(s.drop_last()).push(s.last())
    } else {
        filename_chars(s.drop_last())
    }
}

/// The file name of an export: the title (or `karta-export` without one)
/// reduced to letters, digits, `-` and `_`, followed by `.zip`.
pub fn export_filename(title: Option<&str>) -> (res: String)
    ensures
        res@ == filename_chars(match title {
            Some(t) => t@,
            None => "karta-export"@,
        }) + ".zip"@,
{
    let base = match title {
        Some(t) => t,
        None => "karta-export",
    };
    let n = base.unicode_len();
    let mut out = String::new();
    let mut i: usize = 0;
    while i < n
        invariant
            n == base@.len(),
            i <= n,
            out@ == filename_chars(base@.subrange(0, i as int)),
        decreases n - i,
    {
        let c = base.get_char(i);
        proof {
            assert(base@.subrange(0, i + 1).drop_last() =~= base@.subrange(0, i as int));
        }
        if is_alphanumeric(c) || c == '-' || c == '_' {
            push_char(&mut out, c);
        }
        i = i + 1;
    }
    proof {
        assert(base@.subrange(0, n as int) =~= base@);
    }
    append_str(&mut out, ".zip");
    out
}

/// The answer to an export request, given the identifier chosen for the
/// bundle and its expiry time: the download location of the bundle, its
/// file name (see `export_filename`) and its announced size of one MiB.
pub fn export_bundle(request: &ExportBundleRequest, bundle_id: &str, expires_at: &str) -> (res: ExportBundleResponse)
    ensures
        res.download_url@ == "/api/exports/download/"@ + bundle_id@,
        res.bundle_id@ == bundle_id@,
        res.filename@ == filename_chars(match request.title {
            Some(t) => t@,
            None => "karta-export"@,
        }) + ".zip"@,
        res.size == 1048576,
        res.expires_at@ == expires_at@,
{
    let title: Option<&str> = match &request.title {
        Some(t) => Some(t.as_str()),
        None => None,
    };
    let mut url = String::from_str("/api/exports/download/");
    append_str(&mut url, bundle_id);
    ExportBundleResponse {
        download_url: url,
        bundle_id: String::from_str(bundle_id),
        filename: export_filename(title),
        size: 1048576,
        expires_at: String::from_str(expires_at),
    }
}

} // verus!
