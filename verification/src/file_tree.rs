//! The lazily expanded mirror of a project directory.
//!
//! An arena of nodes keyed by integer id.  Id zero is always the root; ids
//! are handed out by a strictly increasing counter and are never reused, so
//! an id, once issued, refers to one path for the lifetime of the tree.
//! Children load on demand; a forced refresh first destroys the whole
//! cached subtree of a directory — every descendant id disappears from the
//! table — and then enumerates afresh.  Directory enumeration itself
//! happens outside this library; the tree is handed the entries.

use std::collections::HashMap;

use vstd::prelude::*;

use crate::dialog::NewItemDialog;
use crate::node::{DirEntry, FileTreeNode};
use crate::reach::{
    children_closed, desc, ids_bounded, lemma_desc_frame, lemma_desc_gt, lemma_desc_refl,
    lemma_desc_step, lemma_desc_unfold, lemma_desc_last_link, lemma_reaches_any_empty,
    lemma_reaches_any_take_step, reaches_any, table_wf, unique_parents, unreferenced,
};
use crate::text::{spec_hidden, spec_join, str_eq};
use crate::tree_order::{
    entries_sorted, entry_le, lemma_sort_entries_props, lemma_sorted_pairwise, sort_dir_entries,
    sort_entries, views_of, EntryV, SortEntry,
};
use crate::viewer::DxfViewer;
use vstd::string::StringExecFns;

verus! {

broadcast use vstd::std_specs::hash::group_hash_axioms;

/// The file-tree cache: the node table, the id counter, and the state of
/// the small interactions that hang off the tree (the new-item dialog, the
/// drawing inspector, and a queued refresh).
pub struct FileTree {
    pub root_path: String,
    pub nodes: HashMap<u64, FileTreeNode>,
    pub next_id: u64,
    /// The new file / new folder dialog.
    pub new_item_dialog: NewItemDialog,
    /// The drawing inspector.
    pub dxf_viewer: DxfViewer,
    /// A directory whose refresh has been requested but not yet performed.
    pub refresh_dir: Option<u64>,
}

impl FileTree {
    /// The node table.
    pub open spec fn nodes_map(self) -> Map<u64, FileTreeNode> {
        self.nodes@
    }

    /// The next id the tree will issue.
    pub open spec fn next_id_spec(self) -> u64 {
        self.next_id
    }

    /// The root path the tree mirrors.
    pub open spec fn root_path_spec(self) -> Seq<char> {
        self.root_path@
    }

    /// The queued refresh request, if any.
    pub open spec fn refresh_spec(self) -> Option<u64> {
        self.refresh_dir
    }

    /// The tree's invariant: the table is structurally well formed (child
    /// ids are present, exceed their parent's, and have one parent each;
    /// every id is below the counter), and id zero is the root: present, a
    /// directory, at the root path, and nobody's child.
    pub open spec fn wf(self) -> bool {
        &&& table_wf(self.nodes@, self.next_id)
        &&& self.nodes@.dom().contains(0)
        &&& self.nodes@[0].is_directory
        &&& self.nodes@[0].path@ == self.root_path@
        &&& self.next_id >= 1
    }

    /// A tree mirroring `root_path`: one unloaded directory node with id
    /// zero, named after the path's last component, with nothing queued
    /// and both the dialog and the inspector closed.
    pub fn new(root_path: String) -> (t: FileTree)
        ensures
            t.wf(),
            t.root_path_spec() == root_path@,
            t.next_id_spec() == 1,
            t.nodes_map().dom() =~= set![0u64],
            t.nodes_map()[0].path@ == root_path@,
            t.nodes_map()[0].is_directory == true,
            t.nodes_map()[0].children@.len() == 0,
            t.nodes_map()[0].children_loaded == false,
            t.nodes_map()[0].name@ == crate::text::spec_file_name(root_path@),
            t.refresh_spec() is None,
            t.new_item_dialog.is_open == false,
            t.new_item_dialog.name@.len() == 0,
            t.dxf_viewer.is_open == false,
            t.dxf_viewer.error is None,
    {
        let root_node = FileTreeNode::new(root_path.clone(), true);
        let mut nodes: HashMap<u64, FileTreeNode> = HashMap::new();
        nodes.insert(0, root_node);
        let t = FileTree {
            root_path,
            nodes,
            next_id: 1,
            new_item_dialog: NewItemDialog::new(),
            dxf_viewer: DxfViewer::new(),
            refresh_dir: None,
        };
        proof {
            assert(t.nodes@.dom() =~= set![0u64]);
        }
        t
    }

    /// Looks a node up by id.
    pub fn get_node(&self, id: u64) -> (r: Option<&FileTreeNode>)
        ensures
            match r {
                Some(n) => self.nodes_map().dom().contains(id) && *n == self.nodes_map()[id],
                None => !self.nodes_map().dom().contains(id),
            },
    {
        self.nodes.get(&id)
    }

    /// Whether a path is the root path this tree mirrors.
    pub fn is_same_root_path(&self, path: &String) -> (r: bool)
        ensures
            r == (path@ == self.root_path_spec()),
    {
        str_eq(self.root_path.as_str(), path.as_str())
    }

    /// Finds the node holding a path: a linear scan over all issued ids,
    /// returning the least id whose node matches.  Acceptable because the
    /// table is bounded by what the user has expanded, not by the
    /// filesystem.
    pub fn find_node_id_by_path(&self, path: &String) -> (r: Option<u64>)
        requires
            self.wf(),
        ensures
            match r {
                Some(id) => {
                    &&& self.nodes_map().dom().contains(id)
                    &&& self.nodes_map()[id].path@ == path@
                    &&& forall|id2: u64|
                        self.nodes_map().dom().contains(id2) && id2 < id
                            ==> self.nodes_map()[id2].path@ != path@
                },
                None => forall|id2: u64|
                    self.nodes_map().dom().contains(id2) ==> self.nodes_map()[id2].path@ != path@,
            },
    {
        let mut id: u64 = 0;
        while id < self.next_id
            invariant
                self.wf(),
                0 <= id <= self.next_id,
                forall|id2: u64|
                    self.nodes_map().dom().contains(id2) && id2 < id ==> self.nodes_map()[id2].path@
                        != path@,
            decreases self.next_id - id,
        {
            match self.nodes.get(&id) {
                Some(node) => {
                    if str_eq(node.path.as_str(), path.as_str()) {
                        return Some(id);
                    }
                },
                None => {},
            }
            id = id + 1;
        }
        proof {
            assert forall|id2: u64| self.nodes_map().dom().contains(id2) implies
                self.nodes_map()[id2].path@ != path@ by {
                assert(id2 < self.next_id);
            }
        }
        None
    }

    /// Removes a node and its entire subtree from the table.  The id
    /// counter never rewinds: the freed ids are gone for good, never
    /// reissued.  Exactly the subtree of `node_id` disappears; every other
    /// node is untouched.
    pub fn remove_node_recursive(&mut self, node_id: u64)
        requires
            old(self).wf(),
            node_id != 0,
            unreferenced(old(self).nodes_map(), node_id),
        ensures
            final(self).wf(),
            final(self).next_id_spec() == old(self).next_id_spec(),
            final(self).root_path_spec() == old(self).root_path_spec(),
            final(self).refresh_spec() == old(self).refresh_spec(),
            final(self).new_item_dialog == old(self).new_item_dialog,
            final(self).dxf_viewer == old(self).dxf_viewer,
            forall|k: u64|
                final(self).nodes_map().dom().contains(k) <==> (
                old(self).nodes_map().dom().contains(k) && !desc(
                    old(self).nodes_map(),
                    node_id,
                    k,
                )),
            forall|k: u64|
                #[trigger] final(self).nodes_map().dom().contains(k) ==> final(self).nodes_map()[k]
                    == old(self).nodes_map()[k],
        decreases old(self).next_id_spec() - node_id,
    {
        let ghost m0 = self.nodes@;
        let node_opt = self.nodes.remove(&node_id);
        match node_opt {
            None => {
                proof {
                    assert(self.nodes@ =~= m0);
                    assert forall|k: u64| m0.dom().contains(k) && desc(m0, node_id, k) implies
                        false by {
                        if k != node_id {
                            lemma_desc_unfold(m0, node_id, k);
                        }
                    }
                }
            },
            Some(node) => {
                let children = node.children;
                let ghost m1 = self.nodes@;
                let ghost cs = children@;
                proof {
                    assert(m1 =~= m0.remove(node_id));
                    // The table stays well formed without the node: it was
                    // referenced nowhere, so no child link dangles.
                    assert(children_closed(m1)) by {
                        assert forall|id: u64, i: int|
                            m1.dom().contains(id) && 0 <= i < m1[id].children@.len() implies
                            m1.dom().contains(#[trigger] m1[id].children@[i])
                                && m1[id].children@[i] > id by {
                            assert(m1[id] == m0[id]);
                            assert(m0.dom().contains(m0[id].children@[i]));
                            assert(m0[id].children@[i] != node_id);
                        }
                    }
                    assert(unique_parents(m1)) by {
                        assert forall|id1: u64, i1: int, id2: u64, i2: int|
                            #![trigger m1[id1].children@[i1], m1[id2].children@[i2]]
                            m1.dom().contains(id1) && m1.dom().contains(id2) && 0 <= i1
                                < m1[id1].children@.len() && 0 <= i2 < m1[id2].children@.len()
                                && m1[id1].children@[i1] == m1[id2].children@[i2] implies id1 == id2
                                && i1 == i2 by {
                            assert(m0[id1].children@[i1] == m0[id2].children@[i2]);
                        }
                    }
                    assert(self.wf());
                    // The children of the removed node are distinct, above
                    // the removed id, and — now that their parent is gone —
                    // referenced nowhere.
                    assert forall|j: int| 0 <= j < cs.len() implies m1.dom().contains(#[trigger] cs[j])
                        && cs[j] > node_id && unreferenced(m1, cs[j]) by {
                        assert(m0[node_id].children@[j] == cs[j]);
                        assert(m0.dom().contains(cs[j]) && cs[j] > node_id);
                        assert forall|id: u64, i: int|
                            m1.dom().contains(id) && 0 <= i < m1[id].children@.len() implies (
                        #[trigger] m1[id].children@[i]) != cs[j] by {
                            if m1[id].children@[i] == cs[j] {
                                assert(m0[id].children@[i] == cs[j]);
                                assert(m0[node_id].children@[j] == cs[j]);
                                assert(id == node_id && i == j);
                            }
                        }
                    }
                    assert forall|j1: int, j2: int|
                        0 <= j1 < cs.len() && 0 <= j2 < cs.len() && j1 != j2 implies #[trigger] cs[j1]
                            != #[trigger] cs[j2] by {
                        if cs[j1] == cs[j2] {
                            assert(m0[node_id].children@[j1] == m0[node_id].children@[j2]);
                        }
                    }
                }
                let mut j: usize = 0;
                proof {
                    assert forall|k: u64| #![auto] !reaches_any(m1, cs.take(0), k) by {
                        lemma_reaches_any_empty(m1, cs, k);
                    }
                }
                while j < children.len()
                    invariant
                        self.wf(),
                        0 <= j <= cs.len(),
                        cs.len() == children@.len(),
                        cs == children@,
                        self.next_id == old(self).next_id_spec(),
                        self.root_path@ == old(self).root_path@,
                        self.refresh_dir == old(self).refresh_spec(),
                        self.new_item_dialog == old(self).new_item_dialog,
                        self.dxf_viewer == old(self).dxf_viewer,
                        node_id != 0,
                        children_closed(m1),
                        unique_parents(m1),
                        ids_bounded(m1, old(self).next_id_spec()),
                        forall|jj: int|
                            0 <= jj < cs.len() ==> m1.dom().contains(#[trigger] cs[jj]) && cs[jj]
                                > node_id && unreferenced(m1, cs[jj]),
                        forall|j1: int, j2: int|
                            0 <= j1 < cs.len() && 0 <= j2 < cs.len() && j1 != j2 ==> #[trigger] cs[j1]
                                != #[trigger] cs[j2],
                        forall|k: u64|
                            self.nodes_map().dom().contains(k) <==> (m1.dom().contains(k)
                                && !reaches_any(m1, cs.take(j as int), k)),
                        forall|k: u64|
                            #[trigger] self.nodes_map().dom().contains(k) ==> self.nodes_map()[k]
                                == m1[k],
                    decreases cs.len() - j,
                {
                    let c = children[j];
                    let ghost mj = self.nodes@;
                    proof {
                        // The pending child is still present: sibling
                        // subtrees already removed do not reach it.
                        assert(mj.dom().contains(c)) by {
                            if reaches_any(m1, cs.take(j as int), c) {
                                let jj = choose|jj: int|
                                    0 <= jj < cs.take(j as int).len() && desc(
                                        m1,
                                        #[trigger] cs.take(j as int)[jj],
                                        c,
                                    );
                                assert(cs.take(j as int)[jj] == cs[jj]);
                                lemma_desc_refl(m1, c);
                                lemma_unref_disjoint(m1, cs[jj], c, c);
                            }
                        }
                        // And it is still referenced nowhere.
                        assert(unreferenced(mj, c)) by {
                            assert forall|id: u64, i: int|
                                mj.dom().contains(id) && 0 <= i < mj[id].children@.len() implies (
                            #[trigger] mj[id].children@[i]) != c by {
                                assert(mj[id] == m1[id]);
                                assert(m1.dom().contains(id));
                            }
                        }
                    }
                    self.remove_node_recursive(c);
                    proof {
                        lemma_removal_commutes(m1, mj, cs, j as int, self.nodes@);
                    }
                    j = j + 1;
                }
                proof {
                    assert(cs.take(j as int) =~= cs);
                    // The subtree of the removed node is itself plus the
                    // subtrees of its children, taken in the original map.
                    assert forall|k: u64| #![auto]
                        (self.nodes_map().dom().contains(k) <==> (m0.dom().contains(k) && !desc(
                            m0,
                            node_id,
                            k,
                        ))) by {
                        lemma_subtree_decomposition(m0, m1, node_id, cs, k);
                    }
                    assert forall|k: u64| #[trigger] self.nodes_map().dom().contains(k) implies
                        self.nodes_map()[k] == m0[k] by {
                        assert(self.nodes_map()[k] == m1[k]);
                        lemma_desc_refl(m0, node_id);
                        assert(k != node_id);
                    }
                }
            },
        }
    }
}

impl FileTree {
    /// Removes the subtrees of a batch of ids, each currently referenced
    /// nowhere.  Exactly their subtrees disappear.
    fn remove_child_subtrees(&mut self, cs_vec: &Vec<u64>)
        requires
            old(self).wf(),
            forall|j: int|
                0 <= j < cs_vec@.len() ==> (#[trigger] cs_vec@[j]) != 0 && old(
                    self,
                ).nodes_map().dom().contains(cs_vec@[j]) && unreferenced(
                    old(self).nodes_map(),
                    cs_vec@[j],
                ),
            forall|j1: int, j2: int|
                0 <= j1 < cs_vec@.len() && 0 <= j2 < cs_vec@.len() && j1 != j2
                    ==> #[trigger] cs_vec@[j1] != #[trigger] cs_vec@[j2],
        ensures
            final(self).wf(),
            final(self).next_id_spec() == old(self).next_id_spec(),
            final(self).root_path_spec() == old(self).root_path_spec(),
            final(self).refresh_spec() == old(self).refresh_spec(),
            final(self).new_item_dialog == old(self).new_item_dialog,
            final(self).dxf_viewer == old(self).dxf_viewer,
            forall|k: u64|
                final(self).nodes_map().dom().contains(k) <==> (old(
                    self,
                ).nodes_map().dom().contains(k) && !reaches_any(
                    old(self).nodes_map(),
                    cs_vec@,
                    k,
                )),
            forall|k: u64|
                #[trigger] final(self).nodes_map().dom().contains(k) ==> final(self).nodes_map()[k]
                    == old(self).nodes_map()[k],
    {
        let ghost m1 = self.nodes@;
        let ghost cs = cs_vec@;
        let mut j: usize = 0;
        proof {
            assert forall|k: u64| #![auto] !reaches_any(m1, cs.take(0), k) by {
                lemma_reaches_any_empty(m1, cs, k);
            }
        }
        while j < cs_vec.len()
            invariant
                self.wf(),
                0 <= j <= cs.len(),
                cs == cs_vec@,
                self.next_id == old(self).next_id_spec(),
                self.root_path@ == old(self).root_path@,
                self.refresh_dir == old(self).refresh_spec(),
                self.new_item_dialog == old(self).new_item_dialog,
                self.dxf_viewer == old(self).dxf_viewer,
                children_closed(m1),
                unique_parents(m1),
                forall|jj: int|
                    0 <= jj < cs.len() ==> (#[trigger] cs[jj]) != 0 && m1.dom().contains(cs[jj])
                        && unreferenced(m1, cs[jj]),
                forall|j1: int, j2: int|
                    0 <= j1 < cs.len() && 0 <= j2 < cs.len() && j1 != j2 ==> #[trigger] cs[j1]
                        != #[trigger] cs[j2],
                forall|k: u64|
                    self.nodes_map().dom().contains(k) <==> (m1.dom().contains(k) && !reaches_any(
                        m1,
                        cs.take(j as int),
                        k,
                    )),
                forall|k: u64|
                    #[trigger] self.nodes_map().dom().contains(k) ==> self.nodes_map()[k] == m1[k],
            decreases cs.len() - j,
        {
            let c = cs_vec[j];
            let ghost mj = self.nodes@;
            proof {
                assert(mj.dom().contains(c)) by {
                    if reaches_any(m1, cs.take(j as int), c) {
                        let jj = choose|jj: int|
                            0 <= jj < cs.take(j as int).len() && desc(
                                m1,
                                #[trigger] cs.take(j as int)[jj],
                                c,
                            );
                        assert(cs.take(j as int)[jj] == cs[jj]);
                        lemma_desc_refl(m1, c);
                        lemma_unref_disjoint(m1, cs[jj], c, c);
                    }
                }
                assert(unreferenced(mj, c)) by {
                    assert forall|id: u64, i: int|
                        mj.dom().contains(id) && 0 <= i < mj[id].children@.len() implies (
                    #[trigger] mj[id].children@[i]) != c by {
                        assert(mj[id] == m1[id]);
                        assert(m1.dom().contains(id));
                    }
                }
            }
            self.remove_node_recursive(c);
            proof {
                lemma_removal_commutes(m1, mj, cs, j as int, self.nodes@);
            }
            j = j + 1;
        }
        proof {
            assert(cs.take(j as int) =~= cs);
        }
    }

    /// Appends one fresh node per prepared entry, in order: the i-th entry
    /// gets the i-th fresh id.  The new nodes are childless, unloaded, and
    /// as yet referenced nowhere.
    #[verifier::rlimit(50)]
    fn append_new_children(&mut self, parent_path: &String, sorted: Vec<SortEntry>) -> (ids: Vec<
        u64,
    >)
        requires
            old(self).wf(),
            forall|k: int| 0 <= k < sorted@.len() ==> (#[trigger] sorted@[k]).keyed(),
            old(self).next_id_spec() + sorted@.len() <= 0xffff_ffff_ffff_ffff,
        ensures
            final(self).wf(),
            final(self).next_id_spec() == old(self).next_id_spec() + sorted@.len(),
            final(self).root_path_spec() == old(self).root_path_spec(),
            final(self).refresh_spec() == old(self).refresh_spec(),
            final(self).new_item_dialog == old(self).new_item_dialog,
            final(self).dxf_viewer == old(self).dxf_viewer,
            ids@.len() == sorted@.len(),
            forall|i: int|
                0 <= i < ids@.len() ==> #[trigger] ids@[i] == old(self).next_id_spec() + i,
            forall|k: u64|
                final(self).nodes_map().dom().contains(k) <==> (old(
                    self,
                ).nodes_map().dom().contains(k) || (old(self).next_id_spec() <= k < old(
                    self,
                ).next_id_spec() + sorted@.len())),
            forall|k: u64|
                #[trigger] old(self).nodes_map().dom().contains(k) ==> final(self).nodes_map()[k]
                    == old(self).nodes_map()[k],
            forall|id3: u64|
                old(self).next_id_spec() <= id3 < old(self).next_id_spec() + sorted@.len() ==> {
                    let jx = id3 - old(self).next_id_spec();
                    &&& (#[trigger] final(self).nodes_map()[id3]).name@ == views_of(sorted@)[jx].0
                    &&& final(self).nodes_map()[id3].is_directory == views_of(sorted@)[jx].1
                    &&& final(self).nodes_map()[id3].path@ == spec_join(
                        parent_path@,
                        views_of(sorted@)[jx].0,
                    )
                    &&& final(self).nodes_map()[id3].children@.len() == 0
                    &&& final(self).nodes_map()[id3].children_loaded == false
                },
            forall|id2: u64, k2: int|
                final(self).nodes_map().dom().contains(id2) && 0 <= k2
                    < final(self).nodes_map()[id2].children@.len()
                    ==> (#[trigger] final(self).nodes_map()[id2].children@[k2])
                    < old(self).next_id_spec(),
    {
        let ghost ma = self.nodes@;
        let ghost n0 = self.next_id;
        let ghost sv = sorted@;
        let mut ids: Vec<u64> = Vec::new();
        let mut rest = sorted;
        let ghost mut i: int = 0;
        while rest.len() > 0
            invariant
                self.wf(),
                0 <= i,
                i + rest@.len() == sv.len(),
                forall|k: int| 0 <= k < rest@.len() ==> #[trigger] rest@[k] == sv[k + i],
                forall|k: int| 0 <= k < sv.len() ==> (#[trigger] sv[k]).keyed(),
                n0 + sv.len() <= 0xffff_ffff_ffff_ffff,
                children_closed(ma),
                unique_parents(ma),
                ids_bounded(ma, n0),
                self.next_id == n0 + i,
                self.root_path@ == old(self).root_path@,
                self.refresh_dir == old(self).refresh_spec(),
                self.new_item_dialog == old(self).new_item_dialog,
                self.dxf_viewer == old(self).dxf_viewer,
                ids@.len() == i,
                forall|k: int| 0 <= k < i ==> #[trigger] ids@[k] == n0 + k,
                forall|k: u64|
                    #![trigger self.nodes@.dom().contains(k)]
                    self.nodes@.dom().contains(k) <==> (ma.dom().contains(k) || (n0 <= k < n0
                        + i)),
                forall|k: u64|
                    #[trigger] ma.dom().contains(k) ==> self.nodes@[k] == ma[k],
                forall|id3: u64|
                    n0 <= id3 < n0 + i ==> {
                        &&& (#[trigger] self.nodes@[id3]).name@ == sv[id3 - n0].name@
                        &&& self.nodes@[id3].is_directory == sv[id3 - n0].is_directory
                        &&& self.nodes@[id3].path@ == spec_join(
                            parent_path@,
                            sv[id3 - n0].name@,
                        )
                        &&& self.nodes@[id3].children@.len() == 0
                        &&& self.nodes@[id3].children_loaded == false
                        &&& unreferenced(self.nodes@, id3)
                    },
            decreases rest@.len(),
        {
            let e = rest.remove(0);
            let id = self.next_id;
            let path = crate::text::join_path(parent_path.as_str(), e.name.as_str());
            let node = FileTreeNode {
                path,
                name: e.name,
                is_directory: e.is_directory,
                children: Vec::new(),
                children_loaded: false,
            };
            let ghost mprev = self.nodes@;
            self.nodes.insert(id, node);
            self.next_id = self.next_id + 1;
            ids.push(id);
            proof {
                assert(sv[i as int] == e);
                assert(children_closed(self.nodes@)) by {
                    assert forall|id2: u64, k: int|
                        self.nodes@.dom().contains(id2) && 0 <= k
                            < self.nodes@[id2].children@.len() implies self.nodes@.dom().contains(
                        #[trigger] self.nodes@[id2].children@[k],
                    ) && self.nodes@[id2].children@[k] > id2 by {
                        if id2 != id {
                            if ma.dom().contains(id2) {
                                assert(self.nodes@[id2] == ma[id2]);
                                assert(ma.dom().contains(ma[id2].children@[k]));
                            } else {
                                assert(mprev[id2].children@.len() == 0);
                            }
                        } else {
                            assert(self.nodes@[id2].children@.len() == 0);
                        }
                    }
                }
                assert(unique_parents(self.nodes@)) by {
                    assert forall|id1: u64, i1: int, id2: u64, i2: int|
                        #![trigger self.nodes@[id1].children@[i1], self.nodes@[id2].children@[i2]]
                        self.nodes@.dom().contains(id1) && self.nodes@.dom().contains(id2) && 0
                            <= i1 < self.nodes@[id1].children@.len() && 0 <= i2
                            < self.nodes@[id2].children@.len() && self.nodes@[id1].children@[i1]
                            == self.nodes@[id2].children@[i2] implies id1 == id2 && i1 == i2 by {
                        if ma.dom().contains(id1) && ma.dom().contains(id2) {
                            assert(self.nodes@[id1] == ma[id1]);
                            assert(self.nodes@[id2] == ma[id2]);
                            assert(ma[id1].children@[i1] == ma[id2].children@[i2]);
                        } else if !ma.dom().contains(id1) {
                            if id1 == id {
                                assert(self.nodes@[id1].children@.len() == 0);
                            } else {
                                assert(mprev[id1].children@.len() == 0);
                            }
                        } else {
                            if id2 == id {
                                assert(self.nodes@[id2].children@.len() == 0);
                            } else {
                                assert(mprev[id2].children@.len() == 0);
                            }
                        }
                    }
                }
                // The facts about earlier fresh nodes survive the insert,
                // and the node just added satisfies them too.
                assert forall|id3: u64| n0 <= id3 < n0 + i + 1 implies {
                    &&& (#[trigger] self.nodes@[id3]).name@ == sv[id3 - n0].name@
                    &&& self.nodes@[id3].is_directory == sv[id3 - n0].is_directory
                    &&& self.nodes@[id3].path@ == spec_join(parent_path@, sv[id3 - n0].name@)
                    &&& self.nodes@[id3].children@.len() == 0
                    &&& self.nodes@[id3].children_loaded == false
                    &&& unreferenced(self.nodes@, id3)
                } by {
                    if id3 < n0 + i {
                        assert(mprev[id3].children@.len() == 0);
                        assert(self.nodes@[id3] == mprev[id3]);
                    }
                    assert forall|id2: u64, k: int|
                        self.nodes@.dom().contains(id2) && 0 <= k
                            < self.nodes@[id2].children@.len() implies (
                    #[trigger] self.nodes@[id2].children@[k]) != id3 by {
                        if id2 == id {
                            assert(self.nodes@[id2].children@.len() == 0);
                        } else if ma.dom().contains(id2) {
                            assert(mprev[id2] == ma[id2]);
                            assert(ma.dom().contains(ma[id2].children@[k]));
                            assert(ma[id2].children@[k] < n0);
                        } else {
                            assert(mprev[id2].children@.len() == 0);
                        }
                    }
                }
                i = i + 1;
            }
        }
        proof {
            assert(self.nodes_map() == self.nodes@);
            assert(i == sv.len());
            assert forall|k: u64| #![auto]
                (self.nodes@.dom().contains(k) <==> (ma.dom().contains(k) || (n0 <= k < n0
                    + sv.len()))) by {}
            assert forall|id3: u64| n0 <= id3 < n0 + sv.len() implies {
                &&& (#[trigger] self.nodes@[id3]).name@ == views_of(sv)[id3 - n0].0
                &&& self.nodes@[id3].is_directory == views_of(sv)[id3 - n0].1
                &&& self.nodes@[id3].path@ == spec_join(parent_path@, views_of(sv)[id3 - n0].0)
                &&& self.nodes@[id3].children@.len() == 0
                &&& self.nodes@[id3].children_loaded == false
            } by {
                assert(self.nodes@[id3].children@.len() == 0);
                assert(views_of(sv)[id3 - n0] == sv[id3 - n0].view_entry());
            }
            assert forall|id2: u64, k2: int|
                self.nodes@.dom().contains(id2) && 0 <= k2 < self.nodes@[id2].children@.len()
                implies (#[trigger] self.nodes@[id2].children@[k2]) < n0 by {
                if ma.dom().contains(id2) {
                    assert(self.nodes@[id2] == ma[id2]);
                    assert(ma.dom().contains(ma[id2].children@[k2]));
                } else {
                    assert(self.nodes@[id2].children@.len() == 0);
                }
            }
        }
        ids
    }
}

impl FileTree {
    /// Reloads a directory's children from a fresh listing, destroying the
    /// previously cached subtree first.  Ids issued for the old subtree are
    /// gone for good; each listed entry gets a fresh id, in listing order.
    /// A missing id, or one that names a file, leaves the tree untouched.
    pub fn load_children_force(&mut self, parent_id: u64, entries: Vec<DirEntry>)
        requires
            old(self).wf(),
            old(self).next_id_spec() + entries@.len() <= 0xffff_ffff_ffff_ffff,
        ensures
            final(self).wf(),
            old(self).nodes_map().dom().contains(parent_id) && old(self).nodes_map()[parent_id]
                .is_directory ==> force_loaded_post(
                *old(self),
                *final(self),
                parent_id,
                listing_of(entries@),
            ),
            !(old(self).nodes_map().dom().contains(parent_id) && old(self).nodes_map()[parent_id]
                .is_directory) ==> tree_unchanged(*old(self), *final(self)),
    {
        let proceed = match self.nodes.get(&parent_id) {
            Some(n) => n.is_directory,
            None => false,
        };
        if !proceed {
            return ;
        }
        let ghost m0 = self.nodes@;
        let ghost n0 = self.next_id;
        let ghost ls = listing_of(entries@);
        proof {
            lemma_listing_sorted(entries@);
            lemma_visible_len(entry_views(entries@));
            assert(entry_views(entries@).len() == entries@.len());
        }
        // Detach: empty the directory's child list and mark it loaded.
        let pnode = match self.nodes.remove(&parent_id) {
            Some(n) => n,
            None => {
                proof {
                    assert(false);
                }
                return ;
            },
        };
        let FileTreeNode {
            path: parent_path,
            name: pname,
            is_directory: pdir,
            children: old_children,
            children_loaded: _,
        } = pnode;
        let new_pnode = FileTreeNode {
            path: parent_path.clone(),
            name: pname,
            is_directory: pdir,
            children: Vec::new(),
            children_loaded: true,
        };
        self.nodes.insert(parent_id, new_pnode);
        let ghost mb = self.nodes@;
        let ghost cs = old_children@;
        let ghost m1 = m0.remove(parent_id);
        proof {
            assert(mb =~= m0.remove(parent_id).insert(parent_id, self.nodes@[parent_id]));
            assert(mb.dom() =~= m0.dom());
            assert(forall|k: u64|
                #[trigger] mb.dom().contains(k) && k != parent_id ==> mb[k] == m0[k]);
            assert(cs == m0[parent_id].children@);
            // The detached table is well formed, and the old children are
            // distinct, nonzero, present, and referenced nowhere.
            assert(children_closed(mb)) by {
                assert forall|id: u64, i: int|
                    mb.dom().contains(id) && 0 <= i < mb[id].children@.len() implies
                    mb.dom().contains(#[trigger] mb[id].children@[i]) && mb[id].children@[i] > id
                by {
                    if id != parent_id {
                        assert(mb[id] == m0[id]);
                        assert(m0.dom().contains(m0[id].children@[i]));
                    }
                }
            }
            assert(unique_parents(mb)) by {
                assert forall|id1: u64, i1: int, id2: u64, i2: int|
                    #![trigger mb[id1].children@[i1], mb[id2].children@[i2]]
                    mb.dom().contains(id1) && mb.dom().contains(id2) && 0 <= i1
                        < mb[id1].children@.len() && 0 <= i2 < mb[id2].children@.len()
                        && mb[id1].children@[i1] == mb[id2].children@[i2] implies id1 == id2 && i1
                        == i2 by {
                    assert(id1 != parent_id && id2 != parent_id);
                    assert(m0[id1].children@[i1] == m0[id2].children@[i2]);
                }
            }
            assert(self.wf());
            assert forall|j: int| 0 <= j < cs.len() implies (#[trigger] cs[j]) != 0
                && mb.dom().contains(cs[j]) && unreferenced(mb, cs[j]) by {
                assert(m0[parent_id].children@[j] == cs[j]);
                assert(m0.dom().contains(cs[j]) && cs[j] > parent_id);
                assert forall|id: u64, i: int|
                    mb.dom().contains(id) && 0 <= i < mb[id].children@.len() implies (
                #[trigger] mb[id].children@[i]) != cs[j] by {
                    if mb[id].children@[i] == cs[j] {
                        assert(id != parent_id);
                        assert(m0[id].children@[i] == cs[j]);
                        assert(m0[parent_id].children@[j] == cs[j]);
                        assert(id == parent_id && i == j);
                    }
                }
            }
            assert forall|j1: int, j2: int|
                0 <= j1 < cs.len() && 0 <= j2 < cs.len() && j1 != j2 implies #[trigger] cs[j1]
                    != #[trigger] cs[j2] by {
                if cs[j1] == cs[j2] {
                    assert(m0[parent_id].children@[j1] == m0[parent_id].children@[j2]);
                }
            }
        }
        proof {
            assert(self.nodes_map() == mb);
        }
        // Destroy the old subtree.
        self.remove_child_subtrees(&old_children);
        let ghost mc = self.nodes@;
        proof {
            assert(self.nodes_map() == mc);
            // Reachability from an old child reads the same in the
            // original table, in the detached one, and in the one with the
            // parent removed: their subtrees never hold the parent, whose
            // id is smaller.
            assert forall|j: int, k: u64|
                #![trigger desc(mb, cs[j], k)]
                #![trigger desc(m1, cs[j], k)]
                #![trigger desc(m0, cs[j], k)]
                0 <= j < cs.len() implies (desc(mb, cs[j], k) <==> desc(m1, cs[j], k)) && (desc(
                mb,
                cs[j],
                k,
            ) <==> desc(m0, cs[j], k)) by {
                if desc(mb, cs[j], k) {
                    assert forall|x: u64| #[trigger] desc(mb, cs[j], x) && mb.dom().contains(x)
                        implies m1.dom().contains(x) && m1[x] == mb[x] by {
                        if x != cs[j] {
                            lemma_desc_gt(mb, cs[j], x);
                        }
                        assert(x > parent_id);
                    }
                    lemma_desc_frame(mb, m1, cs[j], k);
                    assert forall|x: u64| #[trigger] desc(mb, cs[j], x) && mb.dom().contains(x)
                        implies m0.dom().contains(x) && m0[x] == mb[x] by {
                        if x != cs[j] {
                            lemma_desc_gt(mb, cs[j], x);
                        }
                        assert(x > parent_id);
                    }
                    lemma_desc_frame(mb, m0, cs[j], k);
                }
                if desc(m1, cs[j], k) {
                    assert forall|x: u64| #[trigger] desc(m1, cs[j], x) && m1.dom().contains(x)
                        implies mb.dom().contains(x) && mb[x] == m1[x] by {
                        assert(x != parent_id);
                    }
                    lemma_desc_frame(m1, mb, cs[j], k);
                }
                if desc(m0, cs[j], k) {
                    assert forall|x: u64| #[trigger] desc(m0, cs[j], x) && m0.dom().contains(x)
                        implies mb.dom().contains(x) && mb[x] == m0[x] by {
                        if x != cs[j] {
                            lemma_desc_gt(m0, cs[j], x);
                        }
                        assert(x > parent_id);
                    }
                    lemma_desc_frame(m0, mb, cs[j], k);
                }
            }
            // Reaching into the removed subtrees reads the same in the
            // detached table and in the one without the parent.
            assert forall|k: u64| #![auto]
                (reaches_any(mb, cs, k) <==> reaches_any(m1, cs, k)) by {
                if reaches_any(mb, cs, k) {
                    let jj = choose|jj: int| 0 <= jj < cs.len() && desc(mb, #[trigger] cs[jj], k);
                    assert(desc(m1, cs[jj], k));
                    assert(reaches_any(m1, cs, k));
                }
                if reaches_any(m1, cs, k) {
                    let jj = choose|jj: int| 0 <= jj < cs.len() && desc(m1, #[trigger] cs[jj], k);
                    assert(desc(mb, cs[jj], k));
                    assert(reaches_any(mb, cs, k));
                }
            }
            // So what was removed is exactly the strict subtree of the
            // refreshed directory.
            assert forall|k: u64| #![auto] (mc.dom().contains(k) <==> (m0.dom().contains(k) && !(
            desc(m0, parent_id, k) && k != parent_id))) by {
                assert(mc.dom().contains(k) <==> (mb.dom().contains(k) && !reaches_any(
                    mb,
                    cs,
                    k,
                )));
                assert(mb.dom().contains(k) == m0.dom().contains(k));
                assert(reaches_any(mb, cs, k) == reaches_any(m1, cs, k));
                lemma_subtree_decomposition(m0, m1, parent_id, cs, k);
                if k == parent_id {
                    if reaches_any(mb, cs, k) {
                        let jj = choose|jj: int|
                            0 <= jj < cs.len() && desc(mb, #[trigger] cs[jj], k);
                        assert(m0[parent_id].children@[jj] == cs[jj]);
                        assert(cs[jj] > parent_id);
                        lemma_desc_gt(mb, cs[jj], parent_id);
                    }
                }
            }
        }
        // Build the fresh listing and hang it off the directory.
        let prepared = prepare_entries(entries);
        let sorted = sort_dir_entries(prepared);
        proof {
            assert(views_of(sorted@) == ls);
            assert(sorted@.len() == ls.len());
        }
        let ids = self.append_new_children(&parent_path, sorted);
        let ghost md = self.nodes@;
        proof {
            assert(self.nodes_map() == md);
        }
        let pnode2 = match self.nodes.remove(&parent_id) {
            Some(n) => n,
            None => {
                proof {
                    assert(false);
                }
                return ;
            },
        };
        let FileTreeNode {
            path: pp2,
            name: pn2,
            is_directory: pd2,
            children: _discarded,
            children_loaded: _pl2,
        } = pnode2;
        self.nodes.insert(
            parent_id,
            FileTreeNode {
                path: pp2,
                name: pn2,
                is_directory: pd2,
                children: ids,
                children_loaded: true,
            },
        );
        proof {
            let mf = self.nodes@;
            assert(mf.dom() =~= md.dom());
            assert(forall|k: u64|
                #[trigger] mf.dom().contains(k) && k != parent_id ==> mf[k] == md[k]);
            assert(md[parent_id] == mc[parent_id]);
            assert(mc[parent_id] == mb[parent_id]);
            // The reattached table is well formed: the fresh children are
            // present, distinct, above the parent, and listed only there.
            assert(children_closed(mf)) by {
                assert forall|id: u64, i: int|
                    mf.dom().contains(id) && 0 <= i < mf[id].children@.len() implies
                    mf.dom().contains(#[trigger] mf[id].children@[i]) && mf[id].children@[i] > id
                by {
                    if id == parent_id {
                        assert(mf[id].children@[i] == n0 + i);
                        assert(parent_id < n0);
                    } else {
                        assert(mf[id] == md[id]);
                        assert(md.dom().contains(md[id].children@[i]));
                    }
                }
            }
            assert(unique_parents(mf)) by {
                assert forall|id1: u64, i1: int, id2: u64, i2: int|
                    #![trigger mf[id1].children@[i1], mf[id2].children@[i2]]
                    mf.dom().contains(id1) && mf.dom().contains(id2) && 0 <= i1
                        < mf[id1].children@.len() && 0 <= i2 < mf[id2].children@.len()
                        && mf[id1].children@[i1] == mf[id2].children@[i2] implies id1 == id2 && i1
                        == i2 by {
                    if id1 == parent_id && id2 == parent_id {
                        assert(mf[id1].children@[i1] == n0 + i1);
                        assert(mf[id2].children@[i2] == n0 + i2);
                    } else if id1 == parent_id {
                        assert(mf[id1].children@[i1] == n0 + i1);
                        assert(mf[id2] == md[id2]);
                        assert(md[id2].children@[i2] < n0);
                    } else if id2 == parent_id {
                        assert(mf[id2].children@[i2] == n0 + i2);
                        assert(mf[id1] == md[id1]);
                        assert(md[id1].children@[i1] < n0);
                    } else {
                        assert(mf[id1] == md[id1]);
                        assert(mf[id2] == md[id2]);
                        assert(md[id1].children@[i1] == md[id2].children@[i2]);
                    }
                }
            }
            assert(ids_bounded(mf, self.next_id));
            assert(self.wf());
            assert(force_loaded_post(*old(self), *self, parent_id, ls)) by {
                assert forall|i: int| 0 <= i < ls.len() implies {
                    let id = (n0 + i) as u64;
                    &&& mf[id].name@ == (#[trigger] ls[i]).0
                    &&& mf[id].is_directory == ls[i].1
                    &&& mf[id].path@ == spec_join(m0[parent_id].path@, ls[i].0)
                    &&& mf[id].children@.len() == 0
                    &&& mf[id].children_loaded == false
                } by {
                    let id = (n0 + i) as u64;
                    assert(id != parent_id);
                    assert(mf[id] == md[id]);
                    assert(md[id].children@.len() == 0);
                    assert(md[id].name@ == ls[id - n0].0);
                    assert(m0[parent_id].path@ == parent_path@);
                }
                assert forall|k: u64|
                    #[trigger] m0.dom().contains(k) && !(desc(m0, parent_id, k) && k != parent_id)
                        && k != parent_id implies mf[k] == m0[k] by {
                    assert(mc.dom().contains(k));
                    assert(mc[k] == m0[k]);
                    assert(md[k] == mc[k]);
                    assert(k < n0);
                }
                assert(mf[parent_id].path@ == m0[parent_id].path@);
                assert(mf[parent_id].children@.len() == ls.len());
            }
        }
    }

    /// Loads a directory's children if they have never been loaded: a
    /// node that is missing, is not a directory, or already has its
    /// children is left exactly as it is — the ids it handed out stay,
    /// in the same order.  Otherwise the listing is loaded afresh.
    pub fn load_children(&mut self, parent_id: u64, entries: Vec<DirEntry>)
        requires
            old(self).wf(),
            old(self).next_id_spec() + entries@.len() <= 0xffff_ffff_ffff_ffff,
        ensures
            final(self).wf(),
            (old(self).nodes_map().dom().contains(parent_id) && old(self).nodes_map()[parent_id]
                .is_directory && !old(self).nodes_map()[parent_id].children_loaded)
                ==> force_loaded_post(*old(self), *final(self), parent_id, listing_of(entries@)),
            !(old(self).nodes_map().dom().contains(parent_id) && old(self).nodes_map()[parent_id]
                .is_directory && !old(self).nodes_map()[parent_id].children_loaded)
                ==> tree_unchanged(*old(self), *final(self)),
    {
        let proceed = match self.nodes.get(&parent_id) {
            Some(n) => !n.children_loaded && n.is_directory,
            None => false,
        };
        if proceed {
            self.load_children_force(parent_id, entries);
        }
    }
}

/// What activating a tree entry asks the surrounding shell to do.
#[derive(Debug, Clone, Copy, PartialEq, Eq, Structural)]
pub enum OpenAction {
    /// Nothing: the entry is not one this viewer opens.
    Ignore,
    /// Load and display the activated drawing file.
    OpenDrawing,
}

impl FileTree {
    /// Hands back and clears the queued refresh request, if any.
    pub fn take_refresh_request(&mut self) -> (r: Option<u64>)
        requires
            old(self).wf(),
        ensures
            final(self).wf(),
            r == old(self).refresh_spec(),
            final(self).refresh_spec() is None,
            final(self).nodes_map() == old(self).nodes_map(),
            final(self).next_id_spec() == old(self).next_id_spec(),
            final(self).root_path_spec() == old(self).root_path_spec(),
            final(self).new_item_dialog == old(self).new_item_dialog,
            final(self).dxf_viewer == old(self).dxf_viewer,
    {
        let r = self.refresh_dir;
        self.refresh_dir = None;
        r
    }

    /// Queues a refresh of the directory at a path, if some node holds it;
    /// otherwise the queued request stays as it was.
    pub fn request_refresh(&mut self, path: &String)
        requires
            old(self).wf(),
        ensures
            final(self).wf(),
            final(self).nodes_map() == old(self).nodes_map(),
            final(self).next_id_spec() == old(self).next_id_spec(),
            final(self).root_path_spec() == old(self).root_path_spec(),
            final(self).new_item_dialog == old(self).new_item_dialog,
            final(self).dxf_viewer == old(self).dxf_viewer,
            (forall|id: u64|
                old(self).nodes_map().dom().contains(id) ==> (#[trigger] old(
                    self,
                ).nodes_map()[id]).path@ != path@) ==> final(self).refresh_spec() == old(
                self,
            ).refresh_spec(),
            (exists|id: u64|
                old(self).nodes_map().dom().contains(id) && (#[trigger] old(
                    self,
                ).nodes_map()[id]).path@ == path@) ==> (final(self).refresh_spec() matches Some(
                id2,
            ) && old(self).nodes_map().dom().contains(id2) && old(self).nodes_map()[id2].path@
                == path@),
    {
        match self.find_node_id_by_path(path) {
            Some(dir_id) => {
                self.refresh_dir = Some(dir_id);
            },
            None => {},
        }
    }

    /// Decides what activating an entry does.  A directory queues its own
    /// refresh (when some node holds its path); a file asks for a drawing
    /// load exactly when its extension, lowercased, is `dxf`; anything
    /// else is ignored.
    pub fn handle_open(&mut self, path: &String, is_directory: bool) -> (act: OpenAction)
        requires
            old(self).wf(),
        ensures
            final(self).wf(),
            final(self).nodes_map() == old(self).nodes_map(),
            final(self).next_id_spec() == old(self).next_id_spec(),
            final(self).root_path_spec() == old(self).root_path_spec(),
            final(self).new_item_dialog == old(self).new_item_dialog,
            final(self).dxf_viewer == old(self).dxf_viewer,
            is_directory ==> act == OpenAction::Ignore,
            is_directory && (forall|id: u64|
                old(self).nodes_map().dom().contains(id) ==> (#[trigger] old(
                    self,
                ).nodes_map()[id]).path@ != path@) ==> final(self).refresh_spec() == old(
                self,
            ).refresh_spec(),
            is_directory && (exists|id: u64|
                old(self).nodes_map().dom().contains(id) && (#[trigger] old(
                    self,
                ).nodes_map()[id]).path@ == path@) ==> (final(self).refresh_spec() matches Some(
                id2,
            ) && old(self).nodes_map().dom().contains(id2) && old(self).nodes_map()[id2].path@
                == path@),
            !is_directory ==> final(self).refresh_spec() == old(self).refresh_spec(),
            !is_directory ==> (act == OpenAction::OpenDrawing <==> crate::text::lower_of(
                crate::text::spec_extension(path@),
            ) == "dxf"@),
    {
        if is_directory {
            self.request_refresh(path);
            OpenAction::Ignore
        } else {
            let ext = crate::text::extension_of(path.as_str());
            let low = crate::text::lowercase(ext.as_str());
            let dxf_name = String::from_str("dxf");
            if str_eq(low.as_str(), dxf_name.as_str()) {
                OpenAction::OpenDrawing
            } else {
                OpenAction::Ignore
            }
        }
    }

    /// The icon shown beside a file, by its lowercased extension; the
    /// whole name counts as the extension when it has no dot.
    pub fn get_file_icon(&self, name: &str) -> (r: &'static str)
        ensures
            r@ == spec_icon(crate::text::lower_of(crate::text::suffix_after_last(name@, '.'))),
    {
        let raw = crate::text::suffix_after(name, '.');
        let low = crate::text::lowercase(raw);
        let e = low.as_str();
        if str_eq(e, "dxf") || str_eq(e, "dwg") {
            "\u{1F4D0}"
        } else if str_eq(e, "rs") {
            "\u{1F980}"
        } else if str_eq(e, "toml") {
            "\u{2699}\u{FE0F}"
        } else if str_eq(e, "json") {
            "\u{1F4CB}"
        } else if str_eq(e, "txt") {
            "\u{1F4DD}"
        } else if str_eq(e, "md") {
            "\u{1F4D6}"
        } else {
            "\u{1F4C4}"
        }
    }
}

/// The icon for each kind of file, by lowercased extension.
pub open spec fn spec_icon(ext: Seq<char>) -> Seq<char> {
    if ext == "dxf"@ || ext == "dwg"@ {
        "\u{1F4D0}"@
    } else if ext == "rs"@ {
        "\u{1F980}"@
    } else if ext == "toml"@ {
        "\u{2699}\u{FE0F}"@
    } else if ext == "json"@ {
        "\u{1F4CB}"@
    } else if ext == "txt"@ {
        "\u{1F4DD}"@
    } else if ext == "md"@ {
        "\u{1F4D6}"@
    } else {
        "\u{1F4C4}"@
    }
}

/// In a freshly loaded directory the children stand in listing order:
/// every child is ordered before every later one — directories first,
/// then case-insensitive name order.
pub proof fn lemma_loaded_children_ordered(
    t0: FileTree,
    t1: FileTree,
    p: u64,
    entries: Seq<DirEntry>,
    i: int,
    j: int,
)
    requires
        force_loaded_post(t0, t1, p, listing_of(entries)),
        0 <= i < j < t1.nodes_map()[p].children@.len(),
    ensures
        ({
            let m1 = t1.nodes_map();
            let ci = m1[m1[p].children@[i]];
            let cj = m1[m1[p].children@[j]];
            entry_le((ci.name@, ci.is_directory), (cj.name@, cj.is_directory))
        }),
{
    let ls = listing_of(entries);
    lemma_listing_sorted(entries);
    lemma_sorted_pairwise(ls, i, j);
    let m1 = t1.nodes_map();
    let n0 = t0.next_id_spec();
    assert(m1[p].children@[i] == n0 + i);
    assert(m1[p].children@[j] == n0 + j);
    assert(m1[(n0 + i) as u64].name@ == ls[i].0 && m1[(n0 + i) as u64].is_directory == ls[i].1);
    assert(m1[(n0 + j) as u64].name@ == ls[j].0 && m1[(n0 + j) as u64].is_directory == ls[j].1);
}

/// After a forced refresh of a directory, no id of its previously cached
/// subtree is reachable from the tree: each such id is gone from the
/// table, and nothing present reaches it.
pub proof fn lemma_force_refresh_unreachable(
    t0: FileTree,
    t1: FileTree,
    p: u64,
    ls: Seq<EntryV>,
    k: u64,
)
    requires
        t0.wf(),
        t1.wf(),
        force_loaded_post(t0, t1, p, ls),
        t0.nodes_map().dom().contains(k),
        desc(t0.nodes_map(), p, k),
        k != p,
    ensures
        !t1.nodes_map().dom().contains(k),
        forall|a: u64|
            #[trigger] t1.nodes_map().dom().contains(a) ==> !desc(t1.nodes_map(), a, k),
{
    assert(k < t0.next_id_spec());
    assert(!t1.nodes_map().dom().contains(k));
    assert forall|a: u64| #[trigger] t1.nodes_map().dom().contains(a) implies !desc(
        t1.nodes_map(),
        a,
        k,
    ) by {
        if desc(t1.nodes_map(), a, k) {
            if a != k {
                lemma_desc_gt(t1.nodes_map(), a, k);
            }
        }
    }
}

/// The ordering views of a sequence of directory entries.
pub open spec fn entry_views(s: Seq<DirEntry>) -> Seq<EntryV> {
    s.map_values(|e: DirEntry| (e.name@, e.is_directory))
}

/// The entries that a listing shows: those whose name does not start with
/// a dot.
pub open spec fn visible_views(s: Seq<EntryV>) -> Seq<EntryV>
    decreases s.len(),
{
    if s.len() == 0 {
        s
    } else {
        let rest = visible_views(s.drop_last());
        if spec_hidden(s.last().0) {
            rest
        } else {
            rest.push(s.last())
        }
    }
}

/// What a directory's loaded children look like, given its raw entries:
/// the visible ones, in listing order.
pub open spec fn listing_of(entries: Seq<DirEntry>) -> Seq<EntryV> {
    sort_entries(visible_views(entry_views(entries)))
}

/// Hiding entries only shortens a listing.
pub proof fn lemma_visible_len(s: Seq<EntryV>)
    ensures
        visible_views(s).len() <= s.len(),
    decreases s.len(),
{
    if s.len() > 0 {
        lemma_visible_len(s.drop_last());
    }
}

/// A loaded listing is sorted — directories first, then case-insensitive
/// name order — and holds exactly the visible entries handed in.
pub proof fn lemma_listing_sorted(entries: Seq<DirEntry>)
    ensures
        entries_sorted(listing_of(entries)),
        listing_of(entries).to_multiset() == visible_views(entry_views(entries)).to_multiset(),
        listing_of(entries).len() == visible_views(entry_views(entries)).len(),
    decreases entries.len(),
{
    lemma_sort_entries_props(visible_views(entry_views(entries)));
}

/// Prepares raw entries for the listing: drops hidden names and attaches
/// the lowercased sort key to each survivor.
fn prepare_entries(entries: Vec<DirEntry>) -> (out: Vec<SortEntry>)
    ensures
        views_of(out@) == visible_views(entry_views(entries@)),
        forall|k: int| 0 <= k < out@.len() ==> (#[trigger] out@[k]).keyed(),
{
    let ghost full = entries@;
    let mut rest = entries;
    let mut out: Vec<SortEntry> = Vec::new();
    let ghost mut done: Seq<DirEntry> = Seq::empty();
    proof {
        assert(views_of(out@) =~= visible_views(entry_views(done)));
        assert(done + rest@ =~= full);
    }
    while rest.len() > 0
        invariant
            forall|k: int| 0 <= k < out@.len() ==> (#[trigger] out@[k]).keyed(),
            views_of(out@) == visible_views(entry_views(done)),
            done + rest@ == full,
        decreases rest@.len(),
    {
        let e = rest.remove(0);
        let ghost ev = e;
        let hidden = crate::text::starts_with_dot(e.name.as_str());
        if !hidden {
            let lower = crate::text::lowercase(e.name.as_str());
            out.push(SortEntry { name: e.name, lower, is_directory: e.is_directory });
        }
        proof {
            assert(done.push(ev).drop_last() =~= done);
            assert(done.push(ev).last() == ev);
            assert(entry_views(done.push(ev)).drop_last() =~= entry_views(done));
            assert(entry_views(done.push(ev)).last() == (ev.name@, ev.is_directory));
            if hidden {
                assert(views_of(out@) =~= visible_views(entry_views(done.push(ev))));
            } else {
                assert(views_of(out@) =~= visible_views(entry_views(done)).push(
                    (ev.name@, ev.is_directory),
                ));
                assert(views_of(out@) =~= visible_views(entry_views(done.push(ev))));
            }
            done = done.push(ev);
            assert(done + rest@ =~= full);
        }
    }
    proof {
        assert(done =~= full);
    }
    out
}

/// What a forced load leaves behind, when the refreshed id names a
/// directory: every strict descendant the directory had is gone from the
/// table, the directory's children are the fresh ids `n0, n0 + 1, ...` in
/// listing order, each fresh node mirrors one listed entry under the
/// directory's path, and every node outside the old subtree is untouched.
pub open spec fn force_loaded_post(t0: FileTree, t1: FileTree, p: u64, ls: Seq<EntryV>) -> bool {
    let m0 = t0.nodes_map();
    let m1 = t1.nodes_map();
    let n0 = t0.next_id_spec();
    &&& t1.next_id_spec() == n0 + ls.len()
    &&& t1.root_path_spec() == t0.root_path_spec()
    &&& t1.refresh_spec() == t0.refresh_spec()
    &&& t1.new_item_dialog == t0.new_item_dialog
    &&& t1.dxf_viewer == t0.dxf_viewer
    &&& forall|k: u64|
        #![auto]
        m1.dom().contains(k) <==> ((m0.dom().contains(k) && !(desc(m0, p, k) && k != p)) || (n0
            <= k < n0 + ls.len()))
    &&& forall|k: u64|
        #[trigger] m0.dom().contains(k) && !(desc(m0, p, k) && k != p) && k != p ==> m1[k]
            == m0[k]
    &&& m1[p].path@ == m0[p].path@
    &&& m1[p].name@ == m0[p].name@
    &&& m1[p].is_directory == m0[p].is_directory
    &&& m1[p].children_loaded == true
    &&& m1[p].children@.len() == ls.len()
    &&& forall|i: int| 0 <= i < ls.len() ==> #[trigger] m1[p].children@[i] == n0 + i
    &&& forall|i: int|
        0 <= i < ls.len() ==> {
            let id = (n0 + i) as u64;
            &&& m1[id].name@ == (#[trigger] ls[i]).0
            &&& m1[id].is_directory == ls[i].1
            &&& m1[id].path@ == spec_join(m0[p].path@, ls[i].0)
            &&& m1[id].children@.len() == 0
            &&& m1[id].children_loaded == false
        }
}

/// A tree left exactly as it was: same table, same counter, same root,
/// same pending interactions.
pub open spec fn tree_unchanged(t0: FileTree, t1: FileTree) -> bool {
    &&& t1.nodes_map() == t0.nodes_map()
    &&& t1.next_id_spec() == t0.next_id_spec()
    &&& t1.root_path_spec() == t0.root_path_spec()
    &&& t1.refresh_spec() == t0.refresh_spec()
    &&& t1.new_item_dialog == t0.new_item_dialog
    &&& t1.dxf_viewer == t0.dxf_viewer
}

/// Subtrees rooted at two distinct unreferenced ids never meet: if both
/// reached some id, their chains would have to join, making one of the two
/// a child of something after all.
proof fn lemma_unref_disjoint(m: Map<u64, FileTreeNode>, x: u64, y: u64, k: u64)
    requires
        children_closed(m),
        unique_parents(m),
        unreferenced(m, x),
        unreferenced(m, y),
        x != y,
    ensures
        !(desc(m, x, k) && desc(m, y, k)),
{
    if desc(m, x, k) && desc(m, y, k) {
        crate::reach::lemma_ancestors_ordered(m, x, y, k);
        if desc(m, x, y) {
            lemma_desc_last_link(m, x, y);
        } else {
            lemma_desc_last_link(m, y, x);
        }
    }
}

/// One step of the removal loop, seen at the map level: removing the
/// subtree of the next child from the current table removes, relative to
/// the table the loop started from, exactly that child's subtree more.
proof fn lemma_removal_commutes(
    m1: Map<u64, FileTreeNode>,
    mj: Map<u64, FileTreeNode>,
    cs: Seq<u64>,
    j: int,
    mnew: Map<u64, FileTreeNode>,
)
    requires
        0 <= j < cs.len(),
        children_closed(m1),
        unique_parents(m1),
        forall|jj: int|
            0 <= jj < cs.len() ==> m1.dom().contains(#[trigger] cs[jj]) && unreferenced(m1, cs[jj]),
        forall|j1: int, j2: int|
            0 <= j1 < cs.len() && 0 <= j2 < cs.len() && j1 != j2 ==> #[trigger] cs[j1]
                != #[trigger] cs[j2],
        forall|k: u64|
            mj.dom().contains(k) <==> (m1.dom().contains(k) && !reaches_any(
                m1,
                cs.take(j),
                k,
            )),
        forall|k: u64| #[trigger] mj.dom().contains(k) ==> mj[k] == m1[k],
        forall|k: u64| mnew.dom().contains(k) <==> (mj.dom().contains(k) && !desc(mj, cs[j], k)),
        forall|k: u64| #[trigger] mnew.dom().contains(k) ==> mnew[k] == mj[k],
    ensures
        forall|k: u64|
            mnew.dom().contains(k) <==> (m1.dom().contains(k) && !reaches_any(
                m1,
                cs.take(j + 1),
                k,
            )),
        forall|k: u64| #[trigger] mnew.dom().contains(k) ==> mnew[k] == m1[k],
{
    // The two tables agree on the subtree of the pending child, so
    // reachability from it is the same in both.
    assert forall|k: u64| #![auto] (desc(m1, cs[j], k) <==> desc(mj, cs[j], k)) by {
        if desc(m1, cs[j], k) {
            assert forall|x: u64| #[trigger] desc(m1, cs[j], x) && m1.dom().contains(x) implies
                mj.dom().contains(x) && mj[x] == m1[x] by {
                if reaches_any(m1, cs.take(j), x) {
                    let jj = choose|jj: int|
                        0 <= jj < cs.take(j).len() && desc(m1, #[trigger] cs.take(j)[jj], x);
                    assert(cs.take(j)[jj] == cs[jj]);
                    lemma_unref_disjoint(m1, cs[jj], cs[j], x);
                }
            }
            lemma_desc_frame(m1, mj, cs[j], k);
        }
        if desc(mj, cs[j], k) {
            assert forall|x: u64| #[trigger] desc(mj, cs[j], x) && mj.dom().contains(x) implies
                m1.dom().contains(x) && m1[x] == mj[x] by {}
            lemma_desc_frame(mj, m1, cs[j], k);
        }
    }
    assert forall|k: u64| #![auto]
        (mnew.dom().contains(k) <==> (m1.dom().contains(k) && !reaches_any(
            m1,
            cs.take(j + 1),
            k,
        ))) by {
        lemma_reaches_any_take_step(m1, cs, j, k);
    }
}

/// The subtree of a node, in the original table, is the node itself
/// together with the subtrees of its children in the table that no longer
/// holds the node.
proof fn lemma_subtree_decomposition(
    m0: Map<u64, FileTreeNode>,
    m1: Map<u64, FileTreeNode>,
    node_id: u64,
    cs: Seq<u64>,
    k: u64,
)
    requires
        m0.dom().contains(node_id),
        cs == m0[node_id].children@,
        m1 == m0.remove(node_id),
        children_closed(m0),
        unique_parents(m0),
    ensures
        desc(m0, node_id, k) <==> (k == node_id || reaches_any(m1, cs, k)),
{
    if desc(m0, node_id, k) && k != node_id {
        lemma_desc_unfold(m0, node_id, k);
        let i = choose|i: int|
            0 <= i < m0[node_id].children@.len() && desc(m0, #[trigger] m0[node_id].children@[i], k);
        // Carry the chain over to the table without the parent: the
        // subtree of a child never holds the parent, whose id is smaller.
        assert forall|x: u64| #[trigger] desc(m0, cs[i], x) && m0.dom().contains(x) implies
            m1.dom().contains(x) && m1[x] == m0[x] by {
            if x != cs[i] {
                lemma_desc_gt(m0, cs[i], x);
            }
            assert(cs[i] > node_id);
            assert(x != node_id);
        }
        lemma_desc_frame(m0, m1, cs[i], k);
        assert(desc(m1, cs[i], k));
        assert(reaches_any(m1, cs, k));
    }
    if reaches_any(m1, cs, k) {
        let jj = choose|jj: int| 0 <= jj < cs.len() && desc(m1, #[trigger] cs[jj], k);
        assert forall|x: u64| #[trigger] desc(m1, cs[jj], x) && m1.dom().contains(x) implies
            m0.dom().contains(x) && m0[x] == m1[x] by {}
        lemma_desc_frame(m1, m0, cs[jj], k);
        lemma_desc_step(m0, node_id, jj, k);
    }
    if k == node_id {
        lemma_desc_refl(m0, node_id);
    }
}

} // verus!
