use vstd::prelude::*;

verus! {

/// One entry of a directory tree: a file, or a folder together with the
/// entries it holds, in the order in which they were listed.
pub struct FolderEntry {
    pub path: String,
    pub is_folder: bool,
    /// Whether a folder shows its children; always false for a file.
    pub open: bool,
    pub children: Vec<FolderEntry>,
}

impl FolderEntry {
    /// A collapsed entry with no children.
    pub fn new(path: String, is_folder: bool) -> (r: FolderEntry)
        ensures
            r.path@ == path@,
            r.is_folder == is_folder,
            !r.open,
            r.children@.len() == 0,
    {
        FolderEntry { path, is_folder, open: false, children: Vec::new() }
    }
}

/// Every entry of the forest, at every level, is well formed: a file has no
/// children and is never open, and each entry's depth fits in a `usize`.
pub open spec fn forest_wf(nodes: Seq<FolderEntry>, depth: nat) -> bool
    decreases nodes,
{
    forall|i: int|
        0 <= i < nodes.len() ==> {
            &&& depth <= usize::MAX
            &&& (!(#[trigger] nodes[i]).is_folder ==> nodes[i].children@.len() == 0 && !nodes[i].open)
            &&& forest_wf(nodes[i].children@, depth + 1)
        }
}

/// No folder anywhere in the forest is open.
pub open spec fn all_closed(nodes: Seq<FolderEntry>) -> bool
    decreases nodes,
{
    forall|i: int|
        0 <= i < nodes.len() ==> !(#[trigger] nodes[i]).open && all_closed(nodes[i].children@)
}

/// The entry reached by following `addr`, one child index per level.
pub open spec fn node_at(nodes: Seq<FolderEntry>, addr: Seq<usize>) -> Option<FolderEntry>
    decreases addr.len(),
{
    if addr.len() == 0 || addr[0] >= nodes.len() {
        None
    } else if addr.len() == 1 {
        Some(nodes[addr[0] as int])
    } else {
        node_at(nodes[addr[0] as int].children@, addr.drop_first())
    }
}

/// `after` is `before` with the open flag of the folder at `addr` flipped.
/// A file at `addr`, or an address that leads nowhere, changes nothing.
pub open spec fn toggled(before: Seq<FolderEntry>, after: Seq<FolderEntry>, addr: Seq<usize>) -> bool
    decreases addr.len(),
{
    if addr.len() == 0 || addr[0] >= before.len() {
        after == before
    } else {
        let i = addr[0] as int;
        &&& after.len() == before.len()
        &&& forall|j: int| 0 <= j < before.len() && j != i ==> after[j] == before[j]
        &&& after[i].path == before[i].path
        &&& after[i].is_folder == before[i].is_folder
        &&& if addr.len() == 1 {
            &&& after[i].open == (before[i].is_folder != before[i].open)
            &&& after[i].children == before[i].children
        } else {
            &&& after[i].open == before[i].open
            &&& toggled(before[i].children@, after[i].children@, addr.drop_first())
        }
    }
}

/// Flips the open flag of the folder at `addr[k..]` within `nodes`.
fn toggle_in(nodes: &mut Vec<FolderEntry>, addr: &Vec<usize>, k: usize)
    requires
        k <= addr.len(),
    ensures
        toggled(old(nodes)@, final(nodes)@, addr@.subrange(k as int, addr.len() as int)),
    decreases addr.len() - k,
{
    let ghost rest = addr@.subrange(k as int, addr.len() as int);
    if k >= addr.len() {
        return;
    }
    let i = addr[k];
    if i >= nodes.len() {
        return;
    }
    let mut node = nodes.remove(i);
    if k + 1 == addr.len() {
        if node.is_folder {
            node.open = !node.open;
        }
    } else {
        toggle_in(&mut node.children, addr, k + 1);
        assert(rest.drop_first() =~= addr@.subrange(k + 1, addr.len() as int));
    }
    nodes.insert(i, node);
    assert(nodes@ =~= old(nodes)@.update(i as int, node));
}

/// One line of the rendered tree: where the entry sits, how deep it is drawn,
/// and what it is.
pub struct VisibleRow {
    pub address: Vec<usize>,
    pub depth: usize,
    pub path: String,
    pub is_folder: bool,
    pub open: bool,
}

/// A row as plain values: address, depth, path, folder flag, open flag.
pub type RowView = (Seq<usize>, nat, Seq<char>, bool, bool);

pub open spec fn row_view(r: VisibleRow) -> RowView {
    (r.address@, r.depth as nat, r.path@, r.is_folder, r.open)
}

pub open spec fn rows_view(rows: Seq<VisibleRow>) -> Seq<RowView> {
    rows.map_values(|r: VisibleRow| row_view(r))
}

/// The rows drawn for `nodes` at `depth`, whose addresses all start with
/// `prefix`: depth first, each entry before its children, and a folder's
/// children only when it is open.
pub open spec fn visible(nodes: Seq<FolderEntry>, depth: nat, prefix: Seq<usize>) -> Seq<RowView>
    decreases nodes,
{
    if nodes.len() == 0 {
        Seq::empty()
    } else {
        let i = (nodes.len() - 1) as usize;
        let n = nodes.last();
        let row = (prefix.push(i), depth, n.path@, n.is_folder, n.open);
        let below = if n.open {
            visible(n.children@, depth + 1, prefix.push(i))
        } else {
            Seq::empty()
        };
        visible(nodes.drop_last(), depth, prefix).push(row) + below
    }
}

fn copy_address(a: &Vec<usize>) -> (r: Vec<usize>)
    ensures
        r@ == a@,
{
    let mut r: Vec<usize> = Vec::new();
    let mut i: usize = 0;
    while i < a.len()
        invariant
            i <= a.len(),
            r@ == a@.subrange(0, i as int),
        decreases a.len() - i,
    {
        r.push(a[i]);
        i = i + 1;
    }
    assert(r@ =~= a@);
    r
}

/// Appends to `out` the rows drawn for `nodes` at `depth` under `prefix`.
fn collect_visible(
    nodes: &Vec<FolderEntry>,
    depth: usize,
    prefix: &Vec<usize>,
    out: &mut Vec<VisibleRow>,
)
    requires
        forest_wf(nodes@, depth as nat),
    ensures
        rows_view(final(out)@) == rows_view(old(out)@) + visible(nodes@, depth as nat, prefix@),
    decreases nodes@,
{
    let mut i: usize = 0;
    while i < nodes.len()
        invariant
            i <= nodes.len(),
            forest_wf(nodes@, depth as nat),
            rows_view(out@) == rows_view(old(out)@) + visible(
                nodes@.subrange(0, i as int),
                depth as nat,
                prefix@,
            ),
        decreases nodes.len() - i,
    {
        let n = &nodes[i];
        let mut address = copy_address(prefix);
        address.push(i);
        let ghost before = out@;
        out.push(
            VisibleRow {
                address: copy_address(&address),
                depth,
                path: n.path.clone(),
                is_folder: n.is_folder,
                open: n.open,
            },
        );
        assert(rows_view(out@) =~= rows_view(before).push(row_view(out@.last())));
        let ghost mid = out@;
        if n.open && n.children.len() > 0 {
            assert(decreases_to!(nodes@ => nodes@[i as int].children@));
            assert(nodes@[i as int] == *n);
            assert(forest_wf(n.children@, depth as nat + 1));
            // the children's own well-formedness, at their first entry
            let ghost first = n.children@[0];
            assert(depth as nat + 1 <= usize::MAX);
            collect_visible(&n.children, depth + 1, &address, out);
        }
        proof {
            let sub = nodes@.subrange(0, i + 1);
            assert(sub.drop_last() =~= nodes@.subrange(0, i as int));
            assert(sub.last() == nodes@[i as int]);
            if n.open && n.children.len() == 0 {
                assert(visible(n.children@, depth as nat + 1, address@) =~= Seq::empty());
            }
            assert(rows_view(out@) =~= rows_view(old(out)@) + visible(sub, depth as nat, prefix@));
        }
        i = i + 1;
    }
    assert(nodes@.subrange(0, nodes.len() as int) =~= nodes@);
}

/// One entry of a recursive directory listing, in pre-order: each folder is
/// followed by everything beneath it, one level deeper.
pub struct ListedEntry {
    pub depth: usize,
    pub path: String,
    pub is_folder: bool,
}

/// A listing entry as plain values: depth, path, folder flag.
pub type ListedView = (nat, Seq<char>, bool);

pub open spec fn listed(s: Seq<ListedEntry>) -> Seq<ListedView> {
    s.map_values(|e: ListedEntry| (e.depth as nat, e.path@, e.is_folder))
}

/// A listing that describes a forest: it starts at depth zero, and the depth
/// only grows by one, right after a folder.
pub open spec fn listing_ok(s: Seq<ListedView>) -> bool {
    &&& s.len() > 0 ==> s[0].0 == 0
    &&& forall|i: int|
        #![trigger s[i]]
        1 <= i < s.len() ==> s[i].0 <= s[i - 1].0 + if s[i - 1].2 {
            1nat
        } else {
            0nat
        }
}

/// The listing of a forest whose top entries sit at `depth`: each entry,
/// then the listing of its children.
pub open spec fn flat(nodes: Seq<FolderEntry>, depth: nat) -> Seq<ListedView>
    decreases nodes,
{
    if nodes.len() == 0 {
        Seq::empty()
    } else {
        let n = nodes.last();
        flat(nodes.drop_last(), depth).push((depth, n.path@, n.is_folder)) + flat(
            n.children@,
            depth + 1,
        )
    }
}

/// Whether `s` is a listing that describes a forest.
fn check_listing(s: &Vec<ListedEntry>) -> (r: bool)
    ensures
        r == listing_ok(listed(s@)),
{
    let ghost v = listed(s@);
    if s.len() > 0 && s[0].depth != 0 {
        return false;
    }
    let mut i: usize = 1;
    while i < s.len()
        invariant
            1 <= i,
            v == listed(s@),
            s.len() > 0 ==> v[0].0 == 0,
            forall|j: int|
                #![trigger v[j]]
                1 <= j < i && j < v.len() ==> v[j].0 <= v[j - 1].0 + if v[j - 1].2 {
                    1nat
                } else {
                    0nat
                },
        decreases s.len() - i,
    {
        let step: usize = if s[i - 1].is_folder {
            1
        } else {
            0
        };
        if s[i].depth as u128 > s[i - 1].depth as u128 + step as u128 {
            assert(v[i as int].0 > v[i - 1].0 + if v[i - 1].2 {
                1nat
            } else {
                0nat
            });
            return false;
        }
        i = i + 1;
    }
    true
}

/// Builds the forest whose entries sit at `depth` from `s[pos..]`, stopping
/// at the first entry that is shallower than `depth`.
fn parse_level(s: &Vec<ListedEntry>, pos: usize, depth: usize) -> (r: (Vec<FolderEntry>, usize))
    requires
        listing_ok(listed(s@)),
        pos <= s.len(),
        pos < s.len() ==> s@[pos as int].depth <= depth,
    ensures
        pos <= r.1 <= s.len(),
        r.1 < s.len() ==> s@[r.1 as int].depth < depth,
        flat(r.0@, depth as nat) == listed(s@).subrange(pos as int, r.1 as int),
        forest_wf(r.0@, depth as nat),
        all_closed(r.0@),
    decreases s.len() - pos,
{
    let ghost v = listed(s@);
    let mut nodes: Vec<FolderEntry> = Vec::new();
    let mut p = pos;
    assert(flat(nodes@, depth as nat) =~= v.subrange(pos as int, p as int));
    while p < s.len() && s[p].depth == depth
        invariant
            v == listed(s@),
            listing_ok(v),
            pos <= p <= s.len(),
            p < s.len() ==> s@[p as int].depth <= depth,
            flat(nodes@, depth as nat) == v.subrange(pos as int, p as int),
            forest_wf(nodes@, depth as nat),
            all_closed(nodes@),
        decreases s.len() - p,
    {
        let e = &s[p];
        let mut node = FolderEntry::new(e.path.clone(), e.is_folder);
        let mut next = p + 1;
        if p + 1 < s.len() {
            assert(v[p + 1].0 <= v[p as int].0 + if v[p as int].2 {
                1nat
            } else {
                0nat
            });
        }
        if e.is_folder && depth < usize::MAX {
            let (children, end) = parse_level(s, p + 1, depth + 1);
            node.children = children;
            next = end;
        }
        let ghost before = nodes@;
        nodes.push(node);
        proof {
            assert(nodes@.drop_last() =~= before);
            assert(v.subrange(pos as int, next as int) =~= v.subrange(pos as int, p as int).push(
                v[p as int],
            ) + v.subrange(p + 1, next as int));
            if !(e.is_folder && depth < usize::MAX) {
                assert(flat(node.children@, depth as nat + 1) =~= Seq::empty());
                assert(v.subrange(p + 1, next as int) =~= Seq::empty());
            }
            assert forall|i: int| 0 <= i < nodes@.len() implies !(#[trigger] nodes@[i]).open
                && all_closed(nodes@[i].children@) by {
                if i < before.len() {
                    assert(nodes@[i] == before[i]);
                }
            }
            assert forall|i: int| 0 <= i < nodes@.len() implies {
                &&& depth <= usize::MAX
                &&& (!(#[trigger] nodes@[i]).is_folder ==> nodes@[i].children@.len() == 0
                    && !nodes@[i].open)
                &&& forest_wf(nodes@[i].children@, depth as nat + 1)
            } by {
                if i < before.len() {
                    assert(nodes@[i] == before[i]);
                }
            }
        }
        p = next;
    }
    (nodes, p)
}

/// Toggling keeps a forest well formed.
proof fn lemma_toggled_wf(before: Seq<FolderEntry>, after: Seq<FolderEntry>, addr: Seq<usize>, depth: nat)
    requires
        forest_wf(before, depth),
        toggled(before, after, addr),
    ensures
        forest_wf(after, depth),
    decreases addr.len(),
{
    if addr.len() > 0 && addr[0] < before.len() {
        let i = addr[0] as int;
        if addr.len() > 1 {
            lemma_toggled_wf(before[i].children@, after[i].children@, addr.drop_first(), depth + 1);
        }
        assert forall|j: int| 0 <= j < after.len() implies {
            &&& depth <= usize::MAX
            &&& (!(#[trigger] after[j]).is_folder ==> after[j].children@.len() == 0 && !after[j].open)
            &&& forest_wf(after[j].children@, depth + 1)
        } by {
            // the entry before the toggle carries the facts over
            assert(forest_wf(before[j].children@, depth + 1));
        }
    }
}

/// The mirror of a directory: the entries directly inside it, each with
/// everything beneath it.
pub struct FileTree {
    pub entries: Vec<FolderEntry>,
}

impl FileTree {
    pub open spec fn wf(&self) -> bool {
        forest_wf(self.entries@, 0)
    }

    /// The tree of an empty directory.
    pub fn new() -> (r: FileTree)
        ensures
            r.wf(),
            r.entries@.len() == 0,
    {
        FileTree { entries: Vec::new() }
    }

    /// Builds the tree that `listing` describes, all folders collapsed and
    /// siblings in listing order; `None` when the listing describes no forest.
    pub fn build(listing: &Vec<ListedEntry>) -> (r: Option<FileTree>)
        ensures
            r is Some <==> listing_ok(listed(listing@)),
            r matches Some(t) ==> {
                &&& t.wf()
                &&& all_closed(t.entries@)
                &&& flat(t.entries@, 0) == listed(listing@)
            },
    {
        if !check_listing(listing) {
            return None;
        }
        let (entries, end) = parse_level(listing, 0, 0);
        assert(listed(listing@).subrange(0, end as int) =~= listed(listing@));
        Some(FileTree { entries })
    }

    /// Flips the open flag of the folder at `addr`; a file, or an address
    /// that leads nowhere, is left as it is.
    pub fn toggle(&mut self, addr: &Vec<usize>)
        requires
            old(self).wf(),
        ensures
            final(self).wf(),
            toggled(old(self).entries@, final(self).entries@, addr@),
    {
        toggle_in(&mut self.entries, addr, 0);
        assert(addr@.subrange(0, addr.len() as int) =~= addr@);
        proof {
            lemma_toggled_wf(old(self).entries@, self.entries@, addr@, 0);
        }
    }

    /// The rows to draw, top to bottom.
    pub fn traverse(&self) -> (r: Vec<VisibleRow>)
        requires
            self.wf(),
        ensures
            rows_view(r@) == visible(self.entries@, 0, Seq::empty()),
    {
        let mut out: Vec<VisibleRow> = Vec::new();
        let prefix: Vec<usize> = Vec::new();
        collect_visible(&self.entries, 0, &prefix, &mut out);
        assert(rows_view(Seq::<VisibleRow>::empty()) =~= Seq::empty());
        assert(prefix@ =~= Seq::<usize>::empty());
        out
    }

    /// The entry at `addr`, one child index per level.
    pub fn entry_at(&self, addr: &Vec<usize>) -> (r: Option<&FolderEntry>)
        ensures
            r matches Some(e) ==> node_at(self.entries@, addr@) == Some(*e),
            r is None ==> node_at(self.entries@, addr@) is None,
    {
        if addr.len() == 0 {
            return None;
        }
        let mut level: &Vec<FolderEntry> = &self.entries;
        let mut k: usize = 0;
        assert(addr@.subrange(0, addr.len() as int) =~= addr@);
        loop
            invariant
                k < addr.len(),
                node_at(level@, addr@.subrange(k as int, addr.len() as int)) == node_at(
                    self.entries@,
                    addr@,
                ),
            decreases addr.len() - k,
        {
            let ghost rest = addr@.subrange(k as int, addr.len() as int);
            let i = addr[k];
            if i >= level.len() {
                return None;
            }
            if k + 1 == addr.len() {
                return Some(&level[i]);
            }
            assert(rest.drop_first() =~= addr@.subrange(k + 1, addr.len() as int));
            level = &level[i].children;
            k = k + 1;
        }
    }
}

/// The open flag of the entry at `addr`; false where there is none.
pub open spec fn open_at(nodes: Seq<FolderEntry>, addr: Seq<usize>) -> bool {
    match node_at(nodes, addr) {
        Some(n) => n.open,
        None => false,
    }
}

/// Toggling the entry at `addr` flips its own open flag when it is a folder,
/// and leaves the open flag of every other entry, sibling, ancestor or
/// descendant, as it was.
pub proof fn lemma_toggle_flips_only_target(
    before: Seq<FolderEntry>,
    after: Seq<FolderEntry>,
    addr: Seq<usize>,
    other: Seq<usize>,
)
    requires
        toggled(before, after, addr),
        node_at(before, addr) is Some,
        node_at(before, other) is Some,
        other != addr,
    ensures
        node_at(after, addr) is Some,
        open_at(after, addr) == (node_at(before, addr)->0.is_folder != open_at(before, addr)),
        node_at(after, other) is Some,
        open_at(after, other) == open_at(before, other),
    decreases addr.len(),
{
    let i = addr[0] as int;
    if addr.len() > 1 {
        if other[0] == addr[0] && other.len() > 1 {
            if other.drop_first() == addr.drop_first() {
                assert(other =~= seq![other[0]] + other.drop_first());
                assert(addr =~= seq![addr[0]] + addr.drop_first());
            }
            lemma_toggle_flips_only_target(
                before[i].children@,
                after[i].children@,
                addr.drop_first(),
                other.drop_first(),
            );
        } else {
            lemma_toggle_target_only(before[i].children@, after[i].children@, addr.drop_first());
        }
    } else {
        if other[0] == addr[0] && other.len() == 1 {
            assert(other =~= addr);
        }
    }
}

/// The target half of the law above: the entry at `addr` is still there and
/// its flag is flipped when it is a folder.
proof fn lemma_toggle_target_only(before: Seq<FolderEntry>, after: Seq<FolderEntry>, addr: Seq<usize>)
    requires
        toggled(before, after, addr),
        node_at(before, addr) is Some,
    ensures
        node_at(after, addr) is Some,
        open_at(after, addr) == (node_at(before, addr)->0.is_folder != open_at(before, addr)),
    decreases addr.len(),
{
    if addr.len() > 1 {
        let i = addr[0] as int;
        lemma_toggle_target_only(before[i].children@, after[i].children@, addr.drop_first());
    }
}

/// The rows of `nodes` alone, one per entry, at `depth` under `prefix`.
pub open spec fn rows_of(nodes: Seq<FolderEntry>, depth: nat, prefix: Seq<usize>) -> Seq<RowView> {
    Seq::new(
        nodes.len(),
        |j: int| (prefix.push(j as usize), depth, nodes[j].path@, nodes[j].is_folder, nodes[j].open),
    )
}

/// With every folder collapsed, the traversal yields exactly the entries of
/// the top level, in order, all at the same depth.
pub proof fn lemma_collapsed_rows(nodes: Seq<FolderEntry>, depth: nat, prefix: Seq<usize>)
    requires
        all_closed(nodes),
    ensures
        visible(nodes, depth, prefix) == rows_of(nodes, depth, prefix),
    decreases nodes.len(),
{
    if nodes.len() > 0 {
        let rest = nodes.drop_last();
        assert forall|j: int| 0 <= j < rest.len() implies !(#[trigger] rest[j]).open && all_closed(
            rest[j].children@,
        ) by {
            assert(rest[j] == nodes[j]);
        }
        lemma_collapsed_rows(rest, depth, prefix);
        assert(nodes.last() == nodes[nodes.len() - 1]);
        assert(visible(nodes, depth, prefix) =~= rows_of(nodes, depth, prefix));
    }
}

/// The traversal of the first `n` entries of a forest in which only the
/// folder at `i` may be open.
proof fn lemma_one_open_prefix(nodes: Seq<FolderEntry>, i: int, n: int, depth: nat, prefix: Seq<usize>)
    requires
        0 <= i < nodes.len(),
        0 <= n <= nodes.len(),
        forall|j: int|
            0 <= j < nodes.len() && j != i ==> !(#[trigger] nodes[j]).open && all_closed(
                nodes[j].children@,
            ),
        all_closed(nodes[i].children@),
    ensures
        visible(nodes.subrange(0, n), depth, prefix) == if n <= i {
            rows_of(nodes, depth, prefix).subrange(0, n)
        } else {
            rows_of(nodes, depth, prefix).subrange(0, i + 1) + (if nodes[i].open {
                rows_of(nodes[i].children@, depth + 1, prefix.push(i as usize))
            } else {
                Seq::empty()
            }) + rows_of(nodes, depth, prefix).subrange(i + 1, n)
        },
    decreases n,
{
    let r = rows_of(nodes, depth, prefix);
    let sub = nodes.subrange(0, n);
    if n == 0 {
        assert(visible(sub, depth, prefix) =~= r.subrange(0, 0));
    } else {
        lemma_one_open_prefix(nodes, i, n - 1, depth, prefix);
        assert(sub.drop_last() =~= nodes.subrange(0, n - 1));
        assert(sub.last() == nodes[n - 1]);
        let row = r[n - 1];
        if n - 1 == i {
            if nodes[i].open {
                lemma_collapsed_rows(nodes[i].children@, depth + 1, prefix.push(i as usize));
            }
        }
        if n - 1 < i {
            assert(r.subrange(0, n - 1).push(row) =~= r.subrange(0, n));
        } else if n - 1 == i {
            assert(r.subrange(0, n - 1).push(row) =~= r.subrange(0, i + 1));
            assert(r.subrange(i + 1, n) =~= Seq::<RowView>::empty());
        } else {
            assert(r.subrange(i + 1, n - 1).push(row) =~= r.subrange(i + 1, n));
        }
        assert(visible(sub, depth, prefix) =~= visible(nodes.subrange(0, n - 1), depth, prefix).push(row) + (
        if n - 1 == i && nodes[i].open {
            visible(nodes[i].children@, depth + 1, prefix.push(i as usize))
        } else {
            Seq::empty()
        }));
    }
}

/// Expanding one folder among collapsed siblings, at any depth and under any
/// address prefix, and traversing again gives the same rows as before, with
/// that folder now open and its children inserted right after it, one level
/// deeper. At `depth` 0 and an empty prefix this is the whole tree's traversal.
pub proof fn lemma_expanding_one_folder(
    before: Seq<FolderEntry>,
    after: Seq<FolderEntry>,
    i: usize,
    depth: nat,
    prefix: Seq<usize>,
)
    requires
        all_closed(before),
        i < before.len(),
        before[i as int].is_folder,
        toggled(before, after, seq![i]),
    ensures
        visible(after, depth, prefix) == rows_of(before, depth, prefix).subrange(0, i as int).push(
            (prefix.push(i), depth, before[i as int].path@, true, true),
        ) + rows_of(before[i as int].children@, depth + 1, prefix.push(i)) + rows_of(
            before,
            depth,
            prefix,
        ).subrange(i + 1, before.len() as int),
{
    let ii = i as int;
    assert forall|j: int|
        0 <= j < after.len() && j != ii implies !(#[trigger] after[j]).open && all_closed(
        after[j].children@,
    ) by {
        assert(after[j] == before[j]);
    }
    lemma_one_open_prefix(after, ii, after.len() as int, depth, prefix);
    assert(after.subrange(0, after.len() as int) =~= after);
    let ra = rows_of(after, depth, prefix);
    let rb = rows_of(before, depth, prefix);
    assert(ra.subrange(0, ii + 1) =~= rb.subrange(0, ii).push(
        (prefix.push(i), depth, before[ii].path@, true, true),
    ));
    assert(ra.subrange(ii + 1, after.len() as int) =~= rb.subrange(ii + 1, before.len() as int));
}

} // verus!
