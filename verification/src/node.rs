//! The tree model: one [`INode`] per filesystem entry, each owning its children.
use vstd::prelude::*;
use vstd::std_specs::cmp::PartialEqSpecImpl;

verus! {

/// The mathematical model of an entry and of everything below it.
pub ghost struct NodeView {
    /// The string under which the entry is reported.
    pub name: Seq<char>,
    /// Whether the entry is a directory.
    pub is_directory: bool,
    /// Length in bytes.
    pub size: nat,
    /// Logical creation timestamp.
    pub create_time: nat,
    /// What follows the last `.` of a file's name; empty for directories.
    pub extension: Seq<char>,
    /// The entries directly below this one, in insertion order.
    pub children: Seq<NodeView>,
}

impl NodeView {
    /// The shape of a tree built from a real filesystem: only directories
    /// have children, at every depth.
    pub open spec fn well_formed(self) -> bool
        decreases self,
    {
        &&& !self.is_directory ==> self.children.len() == 0
        &&& forall|i: int|
            0 <= i < self.children.len() ==> (#[trigger] self.children[i]).well_formed()
    }
}

/// One filesystem entry together with the entries below it.
#[derive(Debug)]
pub struct INode {
    name: String,
    is_directory: bool,
    size: u64,
    create_time: u64,
    extension: String,
    children: Vec<INode>,
}

impl View for INode {
    type V = NodeView;

    /// The model of this entry and of everything below it.
    closed spec fn view(&self) -> NodeView {
        model_of(*self)
    }
}

/// The model of `node`: its fields as mathematical values, and the models
/// of its children in their order.
spec fn model_of(node: INode) -> NodeView
    decreases node,
{
    NodeView {
        name: node.name@,
        is_directory: node.is_directory,
        size: node.size as nat,
        create_time: node.create_time as nat,
        extension: node.extension@,
        children: models_of(node.children@),
    }
}

/// The models of `nodes`, one for one.
spec fn models_of(nodes: Seq<INode>) -> Seq<NodeView>
    decreases nodes,
{
    if nodes.len() == 0 {
        Seq::empty()
    } else {
        models_of(nodes.drop_last()).push(model_of(nodes.last()))
    }
}

/// `models_of` keeps the length and maps each entry to its model.
proof fn lemma_models_of(nodes: Seq<INode>)
    ensures
        models_of(nodes).len() == nodes.len(),
        forall|i: int|
            #![trigger models_of(nodes)[i]]
            #![trigger nodes[i]]
            0 <= i < nodes.len() ==> models_of(nodes)[i] == nodes[i]@,
    decreases nodes.len(),
{
    if nodes.len() > 0 {
        let front = nodes.drop_last();
        lemma_models_of(front);
        assert forall|i: int| 0 <= i < nodes.len() implies models_of(nodes)[i] == nodes[i]@ by {
            if i < front.len() {
                assert(front[i] == nodes[i]);
            }
        }
    }
}

impl Clone for INode {
    /// Copies the entry and everything below it.
    fn clone(&self) -> (copy: Self)
        ensures
            copy@ == self@,
        decreases self,
    {
        let mut children: Vec<INode> = Vec::new();
        let mut i: usize = 0;
        while i < self.children.len()
            invariant
                i <= self.children.len(),
                children@.len() == i,
                forall|j: int| 0 <= j < i ==> (#[trigger] children@[j])@ == self.children@[j]@,
            decreases self.children.len() - i,
        {
            let child = self.children[i].clone();
            children.push(child);
            i += 1;
        }
        proof {
            lemma_models_of(self.children@);
            lemma_models_of(children@);
            assert(models_of(children@) =~= models_of(self.children@));
        }
        INode {
            name: self.name.clone(),
            is_directory: self.is_directory,
            size: self.size,
            create_time: self.create_time,
            extension: self.extension.clone(),
            children,
        }
    }
}

impl PartialEq for INode {
    /// Whether two entries are alike in every field and at every depth.
    fn eq(&self, other: &Self) -> (equal: bool)
        decreases self,
    {
        proof {
            lemma_models_of(self.children@);
            lemma_models_of(other.children@);
        }
        if !(self.name == other.name && self.is_directory == other.is_directory && self.size
            == other.size && self.create_time == other.create_time && self.extension
            == other.extension && self.children.len() == other.children.len()) {
            return false;
        }
        let mut i: usize = 0;
        while i < self.children.len()
            invariant
                i <= self.children.len(),
                self.children.len() == other.children.len(),
                self@.children.len() == self.children.len(),
                other@.children.len() == other.children.len(),
                forall|j: int|
                    0 <= j < self.children.len() ==> #[trigger] self@.children[j]
                        == self.children@[j]@,
                forall|j: int|
                    0 <= j < other.children.len() ==> #[trigger] other@.children[j]
                        == other.children@[j]@,
                forall|j: int| 0 <= j < i ==> self.children@[j]@ == other.children@[j]@,
            decreases self.children.len() - i,
        {
            if !(self.children[i] == other.children[i]) {
                assert(self@.children[i as int] != other@.children[i as int]);
                return false;
            }
            i += 1;
        }
        proof {
            assert(models_of(self.children@) =~= models_of(other.children@));
        }
        true
    }
}

/// `==` on entries means that their models are equal.
impl PartialEqSpecImpl for INode {
    open spec fn obeys_eq_spec() -> bool {
        true
    }

    open spec fn eq_spec(&self, other: &INode) -> bool {
        self@ == other@
    }
}

/// `i` is the position of the last `.` in `name`.
pub open spec fn is_last_dot(name: Seq<char>, i: int) -> bool {
    &&& 0 <= i < name.len()
    &&& name[i] == '.'
    &&& forall|j: int| i < j < name.len() ==> name[j] != '.'
}

/// The extension of a file called `name`: what follows its last `.`, and
/// nothing if it has none.
pub open spec fn extension_of(name: Seq<char>) -> Seq<char> {
    if exists|i: int| is_last_dot(name, i) {
        let i = choose|i: int| is_last_dot(name, i);
        name.subrange(i + 1, name.len() as int)
    } else {
        Seq::empty()
    }
}

/// Derives a file's extension from its name.
pub fn file_extension(name: &str) -> (extension: String)
    ensures
        extension@ == extension_of(name@),
{
    let len: usize = name.unicode_len();
    let mut last_dot: Option<usize> = None;
    let mut i: usize = 0;
    for c in it: name.chars()
        invariant
            it.seq() == name@,
            i == it.index(),
            len == name@.len(),
            match last_dot {
                Some(d) => is_last_dot(name@.take(i as int), d as int),
                None => forall|j: int| 0 <= j < i ==> name@[j] != '.',
            },
    {
        if c == '.' {
            last_dot = Some(i);
        }
        i += 1;
    }
    match last_dot {
        Some(d) => {
            assert(name@.take(i as int) =~= name@);
            assert(is_last_dot(name@, d as int));
            assert forall|k: int| is_last_dot(name@, k) implies k == d by {}
            name.substring_char(d + 1, len).to_owned()
        },
        None => {
            assert(!exists|k: int| is_last_dot(name@, k));
            String::new()
        },
    }
}

impl INode {
    /// Creates an entry without children. The arguments are taken as they
    /// are: nothing checks that they fit one another.
    pub fn new(name: String, is_directory: bool, size: u64, extension: String, create_time: u64) -> (node:
        Self)
        ensures
            node@ == (NodeView {
                name: name@,
                is_directory,
                size: size as nat,
                create_time: create_time as nat,
                extension: extension@,
                children: Seq::empty(),
            }),
    {
        INode { name, is_directory, size, create_time, extension, children: Vec::new() }
    }

    /// Creates the entry for one item of a directory listing: a directory has
    /// no extension, a file has the one that its name gives it.
    pub fn from_entry(name: String, is_directory: bool, size: u64, create_time: u64) -> (node: Self)
        ensures
            node@ == (NodeView {
                name: name@,
                is_directory,
                size: size as nat,
                create_time: create_time as nat,
                extension: if is_directory {
                    Seq::empty()
                } else {
                    extension_of(name@)
                },
                children: Seq::empty(),
            }),
            node@.well_formed(),
    {
        let extension = if is_directory {
            String::new()
        } else {
            file_extension(name.as_str())
        };
        INode::new(name, is_directory, size, extension, create_time)
    }

    /// Appends `child` below this entry, after the children it already has.
    /// Nothing else changes, and any entry accepts a child.
    pub fn add_child(&mut self, child: INode)
        ensures
            final(self)@ == (NodeView {
                children: old(self)@.children.push(child@),
                ..old(self)@
            }),
            old(self)@.well_formed() && old(self)@.is_directory && child@.well_formed()
                ==> final(self)@.well_formed(),
    {
        self.children.push(child);
        assert(self.children@.drop_last() =~= old(self).children@);
    }

    /// The entries directly below this one, in the order in which they were added.
    pub fn children(&self) -> (children: &Vec<INode>)
        ensures
            children@.len() == self@.children.len(),
            forall|i: int|
                0 <= i < children@.len() ==> (#[trigger] children@[i])@ == self@.children[i],
    {
        proof {
            lemma_models_of(self.children@);
        }
        &self.children
    }

    /// The string under which this entry is reported.
    pub fn name(&self) -> (name: &str)
        ensures
            name@ == self@.name,
    {
        self.name.as_str()
    }

    /// Whether this entry is a directory.
    pub fn is_directory(&self) -> (is_directory: bool)
        ensures
            is_directory == self@.is_directory,
    {
        self.is_directory
    }

    /// Length in bytes.
    pub fn size(&self) -> (size: u64)
        ensures
            size == self@.size,
    {
        self.size
    }

    /// Logical creation timestamp.
    pub fn create_time(&self) -> (create_time: u64)
        ensures
            create_time == self@.create_time,
    {
        self.create_time
    }

    /// The extension that this entry was created with.
    pub fn extension(&self) -> (extension: &String)
        ensures
            extension@ == self@.extension,
    {
        &self.extension
    }
}

} // verus!
