//! Directory skeletons: trees of folder names, flattened into the paths of
//! their leaves.

use vstd::prelude::*;
use crate::render::strings_view;
use crate::text::concat;

verus! {

/// The folder of study documents.
pub const DOCUMENTS: &'static str = "documents";

/// The folder of statistical work.
pub const STAT: &'static str = "stats";

/// The separator between the folders of a path.
pub const SEPARATOR: &'static str = "\\";

/// A folder, with the folders inside it; a folder without a list of
/// children is a leaf.
#[derive(Debug)]
pub struct Node {
    pub name: String,
    pub children: Option<Folders>,
}

/// A list of folders, in order.
#[derive(Debug)]
pub enum Folders {
    Empty,
    More(Box<Node>, Box<Folders>),
}

/// The path of folder `name` inside `parent`; a folder at the top has no
/// parent.
pub open spec fn child_path(parent: Seq<char>, name: Seq<char>) -> Seq<char> {
    if parent.len() == 0 {
        name
    } else {
        parent + SEPARATOR@ + name
    }
}

/// The paths of the leaves under `node`, which sits inside `parent`, in order.
pub open spec fn walk_spec(parent: Seq<char>, node: Node) -> Seq<Seq<char>>
    decreases node,
{
    let current = child_path(parent, node.name@);
    match node.children {
        Some(children) => walk_folders(current, children),
        None => seq![current],
    }
}

/// The paths of the leaves under each of `folders`, which sit inside
/// `parent`, in order.
pub open spec fn walk_folders(parent: Seq<char>, folders: Folders) -> Seq<Seq<char>>
    decreases folders,
{
    match folders {
        Folders::Empty => Seq::empty(),
        Folders::More(first, rest) => walk_spec(parent, *first) + walk_folders(parent, *rest),
    }
}

/// The path of folder `name` inside `parent`.
fn join(parent: &str, name: &str) -> (r: String)
    ensures
        r@ == child_path(parent@, name@),
{
    if parent.is_empty() {
        name.to_owned()
    } else {
        let s = concat(parent, SEPARATOR);
        concat(s.as_str(), name)
    }
}

/// Appends the strings of `more` to `out`.
fn append_all(out: &mut Vec<String>, more: Vec<String>)
    ensures
        strings_view(final(out)@) == strings_view(old(out)@) + strings_view(more@),
{
    let ghost start = strings_view(out@);
    let mut i: usize = 0;
    while i < more.len()
        invariant
            i <= more@.len(),
            strings_view(out@) == start + strings_view(more@).take(i as int),
        decreases more@.len() - i,
    {
        let ghost before = out@;
        out.push(more[i].clone());
        assert(out@ == before.push(more@[i as int]));
        assert(strings_view(out@) =~= strings_view(before).push(more@[i as int]@));
        assert(strings_view(more@).take(i + 1) =~= strings_view(more@).take(i as int).push(
            more@[i as int]@,
        ));
        assert(strings_view(out@) =~= start + strings_view(more@).take(i + 1));
        i = i + 1;
    }
    assert(strings_view(more@).take(more@.len() as int) =~= strings_view(more@));
}

/// The paths of the leaves under `node`, which sits inside `parent`, in order.
pub fn walk(parent: &str, node: &Node) -> (r: Vec<String>)
    ensures
        strings_view(r@) == walk_spec(parent@, *node),
    decreases node,
{
    let current_dir = join(parent, node.name.as_str());
    match &node.children {
        Some(children) => walk_all(current_dir.as_str(), children),
        None => {
            let r = vec![current_dir];
            assert(strings_view(r@) =~= seq![r@[0]@]);
            r
        },
    }
}

/// The paths of the leaves under each of `folders`, which sit inside
/// `parent`, in order.
pub fn walk_all(parent: &str, folders: &Folders) -> (r: Vec<String>)
    ensures
        strings_view(r@) == walk_folders(parent@, *folders),
    decreases folders,
{
    match folders {
        Folders::Empty => {
            let r: Vec<String> = Vec::new();
            assert(strings_view(r@) =~= Seq::<Seq<char>>::empty());
            r
        },
        Folders::More(first, rest) => {
            let mut r = walk(parent, first);
            let more = walk_all(parent, rest);
            append_all(&mut r, more);
            r
        },
    }
}

/// A tree of folders to create for a study.
pub trait Skeleton {
    /// What `paths` gives.
    spec fn paths_spec(&self) -> Seq<Seq<char>>;

    /// The folders to create, leaves only, each as a path from the study's
    /// folder.
    fn paths(&self) -> (r: Vec<String>)
        ensures
            strings_view(r@) == self.paths_spec(),
    ;
}

/// The folders of study documents.
pub struct DocumentSkeleton {
    nodes: Folders,
}

impl DocumentSkeleton {
    pub fn new(nodes: Folders) -> (r: DocumentSkeleton)
        ensures
            r.tree() == nodes,
    {
        DocumentSkeleton { nodes }
    }

    pub closed spec fn tree(&self) -> Folders {
        self.nodes
    }
}

impl Skeleton for DocumentSkeleton {
    open spec fn paths_spec(&self) -> Seq<Seq<char>> {
        walk_folders(DOCUMENTS@, self.tree())
    }

    fn paths(&self) -> (r: Vec<String>) {
        walk_all(DOCUMENTS, &self.nodes)
    }
}

/// The folders of statistical work for one purpose of a trial.
pub struct StatSkeleton {
    purpose: String,
    nodes: Folders,
}

impl StatSkeleton {
    pub fn new(purpose: &str, nodes: Folders) -> (r: StatSkeleton)
        ensures
            r.purpose() == purpose@,
            r.tree() == nodes,
    {
        StatSkeleton { purpose: purpose.to_owned(), nodes }
    }

    pub closed spec fn purpose(&self) -> Seq<char> {
        self.purpose@
    }

    pub closed spec fn tree(&self) -> Folders {
        self.nodes
    }
}

impl Skeleton for StatSkeleton {
    open spec fn paths_spec(&self) -> Seq<Seq<char>> {
        walk_folders(STAT@ + SEPARATOR@ + self.purpose(), self.tree())
    }

    fn paths(&self) -> (r: Vec<String>) {
        let base = concat(STAT, SEPARATOR);
        let base = concat(base.as_str(), self.purpose.as_str());
        walk_all(base.as_str(), &self.nodes)
    }
}

/// Where the folders of a skeleton go: under a root, in the folder of a
/// product, in the folder of one of its trials.
#[derive(Debug)]
pub struct Builder {
    root: String,
    product_id: String,
    trial_id: String,
}

pub struct BuilderView {
    pub root: Seq<char>,
    pub product_id: Seq<char>,
    pub trial_id: Seq<char>,
}

impl View for Builder {
    type V = BuilderView;

    closed spec fn view(&self) -> BuilderView {
        BuilderView { root: self.root@, product_id: self.product_id@, trial_id: self.trial_id@ }
    }
}

impl Builder {
    /// A builder under `root`, with no product or trial chosen yet.
    pub fn new(root: &str) -> (r: Builder)
        ensures
            r@.root == root@,
            r@.product_id == Seq::<char>::empty(),
            r@.trial_id == Seq::<char>::empty(),
    {
        Builder { root: root.to_owned(), product_id: String::new(), trial_id: String::new() }
    }

    pub fn set_product_id(&mut self, product_id: &str)
        ensures
            final(self)@.product_id == product_id@,
            final(self)@.root == old(self)@.root,
            final(self)@.trial_id == old(self)@.trial_id,
    {
        self.product_id = product_id.to_owned();
    }

    pub fn set_trial_id(&mut self, trial_id: &str)
        ensures
            final(self)@.trial_id == trial_id@,
            final(self)@.root == old(self)@.root,
            final(self)@.product_id == old(self)@.product_id,
    {
        self.trial_id = trial_id.to_owned();
    }

    pub fn root(&self) -> (r: &String)
        ensures
            r@ == self@.root,
    {
        &self.root
    }

    pub fn product_id(&self) -> (r: &String)
        ensures
            r@ == self@.product_id,
    {
        &self.product_id
    }

    pub fn trial_id(&self) -> (r: &String)
        ensures
            r@ == self@.trial_id,
    {
        &self.trial_id
    }
}

} // verus!
