use crate::byte_buffer::Cursors;
use crate::element::{attrs_view, put_attr, with_attr};
use crate::encoding_type::EncodingType;
use crate::error::KbinError;
use crate::node_types::StandardType;
use crate::reader::{read_record, Document, NodeDefinition, Reader, Record};
use crate::value::{value_of, Value, ValueView};
use vstd::prelude::*;

verus! {

/// A node with its attributes and the nodes inside it, as a mathematical
/// value: what a `NodeCollection` holds.
pub struct Collection {
    /// The node itself: its type, its name and the bytes of its value.
    pub base: Record,
    /// The attribute nodes, in order.
    pub attributes: Seq<Record>,
    /// The nodes inside it, in order.
    pub children: Seq<Collection>,
}

/// A node as it stands in a document, with its attributes and the nodes
/// inside it: the values are the bytes of the data section, not text.
#[derive(Debug, PartialEq, Eq)]
pub struct NodeCollection {
    /// The node itself: its type, its name and the bytes of its value.
    pub base: NodeDefinition,
    /// The attribute nodes, in order.
    pub attributes: Vec<NodeDefinition>,
    /// The nodes inside it, in order.
    pub children: Vec<NodeCollection>,
}

/// The node entries as mathematical values.
pub open spec fn records_of(defs: Seq<NodeDefinition>) -> Seq<Record> {
    defs.map_values(|d: NodeDefinition| d@)
}

/// The nodes as mathematical values.
pub open spec fn collections_of(nodes: Seq<NodeCollection>) -> Seq<Collection>
    decreases nodes,
{
    if nodes.len() == 0 {
        Seq::empty()
    } else {
        collections_of(nodes.drop_last()).push(nodes.last().view())
    }
}

impl View for NodeCollection {
    type V = Collection;

    open spec fn view(&self) -> Collection
        decreases self,
    {
        Collection {
            base: self.base@,
            attributes: records_of(self.attributes@),
            children: collections_of(self.children@),
        }
    }
}

impl Collection {
    /// A node without attributes and with nothing inside it.
    pub open spec fn bare(base: Record) -> Collection {
        Collection { base, attributes: Seq::empty(), children: Seq::empty() }
    }

    /// The node with `attribute` as its last attribute.
    pub open spec fn push_attribute(self, attribute: Record) -> Collection {
        Collection { attributes: self.attributes.push(attribute), ..self }
    }

    /// The node with `child` as the last node inside it.
    pub open spec fn push_child(self, child: Collection) -> Collection {
        Collection { children: self.children.push(child), ..self }
    }
}

/// The nodes that are open, the outermost first, and the outermost node once
/// it has been closed.
pub struct Gathering {
    /// The nodes that are open, the outermost first.
    pub stack: Seq<Collection>,
    /// The outermost node, once it has been closed.
    pub root: Option<Collection>,
}

impl Gathering {
    /// The state before any node has been read.
    pub open spec fn start() -> Gathering {
        Gathering { stack: Seq::empty(), root: None }
    }

    /// The state after the node `record`, which is not the end of the document.
    ///
    /// A node opens inside the innermost open one; an attribute belongs to
    /// the innermost open node; the end of an element closes the innermost
    /// open node and makes it the last inside the one around it. Nodes are
    /// taken into account only while the outermost node is not closed.
    pub open spec fn step(self, record: Record) -> Result<Gathering, KbinError> {
        if record.node_type == StandardType::NodeEnd {
            if self.stack.len() == 0 {
                Err(KbinError::InvalidState)
            } else if self.stack.len() == 1 {
                Ok(Gathering { stack: Seq::empty(), root: Some(self.stack[0]) })
            } else {
                let child = self.stack.last();
                let rest = self.stack.drop_last();
                Ok(
                    Gathering {
                        stack: rest.drop_last().push(rest.last().push_child(child)),
                        root: None,
                    },
                )
            }
        } else if record.node_type == StandardType::Attribute {
            if self.stack.len() == 0 {
                Err(KbinError::InvalidState)
            } else {
                Ok(
                    Gathering {
                        stack: self.stack.drop_last().push(
                            self.stack.last().push_attribute(record),
                        ),
                        root: None,
                    },
                )
            }
        } else {
            Ok(Gathering { stack: self.stack.push(Collection::bare(record)), root: None })
        }
    }

    /// The node that the document holds, once its reading has ended: the
    /// outermost node, closed or not. A document without any node holds none.
    pub open spec fn finish(self) -> Result<Collection, KbinError> {
        match self.root {
            Some(root) => Ok(root),
            None => if self.stack.len() > 0 {
                Ok(self.stack[0])
            } else {
                Err(KbinError::InvalidState)
            },
        }
    }
}

/// The node that the rest of a document holds, read from the given positions
/// on with the given nodes open.
///
/// The reading ends where the outermost node is closed, and at the end of
/// the document, which must be marked if the outermost node is not closed.
#[verifier::opaque]
pub open spec fn collect_from(doc: Document, pos: nat, cur: Cursors, state: Gathering) -> Result<
    Collection,
    KbinError,
>
    decreases doc.nodes.len() - pos,
    via collect_from_decreases
{
    if state.root is Some {
        state.finish()
    } else {
        match read_record(doc, pos, cur) {
            Err(e) => Err(e),
            Ok((record, behind, next)) => if record.node_type == StandardType::FileEnd {
                state.finish()
            } else {
                match state.step(record) {
                    Err(e) => Err(e),
                    Ok(grown) => collect_from(doc, behind, next, grown),
                }
            },
        }
    }
}

#[via_fn]
proof fn collect_from_decreases(doc: Document, pos: nat, cur: Cursors, state: Gathering) {
    crate::reader::lemma_read_record_moves(doc, pos, cur);
}

/// What collecting from given positions comes to, by what the next node is.
pub proof fn lemma_collect_from(doc: Document, pos: nat, cur: Cursors, state: Gathering)
    ensures
        collect_from(doc, pos, cur, state) == if state.root is Some {
            state.finish()
        } else {
            match read_record(doc, pos, cur) {
                Err(e) => Err(e),
                Ok((record, behind, next)) => if record.node_type == StandardType::FileEnd {
                    state.finish()
                } else {
                    match state.step(record) {
                        Err(e) => Err(e),
                        Ok(grown) => collect_from(doc, behind, next, grown),
                    }
                },
            }
        },
{
    reveal(collect_from);
}

/// The node that a document holds, with the bytes of all values, and the
/// encoding of the document.
pub open spec fn spec_collect(input: Seq<u8>) -> Result<
    (Collection, crate::encoding_type::EncodingType),
    KbinError,
> {
    match crate::reader::spec_parse_header(input) {
        Err(e) => Err(e),
        Ok(doc) => match collect_from(doc, 0, Cursors::start(), Gathering::start()) {
            Err(e) => Err(e),
            Ok(root) => Ok((root, doc.encoding)),
        },
    }
}

/// The nodes that are open while a document is read, and the outermost node
/// once it has been closed.
struct Gatherer {
    stack: Vec<NodeCollection>,
    root: Option<NodeCollection>,
}

impl Gatherer {
    /// The state that the gatherer is in.
    closed spec fn state(&self) -> Gathering {
        Gathering {
            stack: collections_of(self.stack@),
            root: match self.root {
                Some(node) => Some(node@),
                None => None,
            },
        }
    }

    /// A gatherer before any node has been read.
    fn new() -> (r: Gatherer)
        ensures
            r.state() == Gathering::start(),
    {
        Gatherer { stack: Vec::new(), root: None }
    }

    /// Whether the outermost node has been closed.
    fn is_closed(&self) -> (r: bool)
        ensures
            r == self.state().root is Some,
    {
        self.root.is_some()
    }

    /// Takes the node `def`, which is not the end of the document, into account.
    fn step(&mut self, def: NodeDefinition) -> (r: Result<(), KbinError>)
        requires
            old(self).state().root is None,
        ensures
            match old(self).state().step(def@) {
                Ok(grown) => r is Ok && final(self).state() == grown,
                Err(e) => r matches Err(err) && err == e,
            },
    {
        let ghost before = self.stack@;
        proof {
            lemma_collections_of(before);
        }
        match def.node_type {
            StandardType::NodeEnd => {
                if self.stack.len() == 0 {
                    return Err(KbinError::InvalidState);
                }
                proof {
                    lemma_collections_drop_last(before);
                }
                let child = self.stack.pop().unwrap();
                let ghost rest = self.stack@;
                match self.stack.pop() {
                    None => {
                        self.root = Some(child);
                        proof {
                            assert(collections_of(self.stack@) == Seq::<Collection>::empty());
                        }
                    },
                    Some(parent) => {
                        let mut parent = parent;
                        let ghost below = self.stack@;
                        let ghost inner = parent.children@;
                        let ghost parent_before = parent@;
                        proof {
                            lemma_collections_drop_last(rest);
                            lemma_collections_push(inner, child);
                        }
                        parent.children.push(child);
                        proof {
                            assert(parent@ == parent_before.push_child(child@));
                            lemma_collections_push(below, parent);
                        }
                        self.stack.push(parent);
                    },
                }
                Ok(())
            },
            StandardType::Attribute => {
                if self.stack.len() == 0 {
                    return Err(KbinError::InvalidState);
                }
                proof {
                    lemma_collections_drop_last(before);
                }
                let mut top = self.stack.pop().unwrap();
                let ghost below = self.stack@;
                let ghost attrs = top.attributes@;
                let ghost top_before = top@;
                top.attributes.push(def);
                proof {
                    assert(records_of(top.attributes@) == records_of(attrs).push(def@));
                    assert(top@ == top_before.push_attribute(def@));
                    lemma_collections_push(below, top);
                }
                self.stack.push(top);
                Ok(())
            },
            _ => {
                let ghost record = def@;
                let node = NodeCollection {
                    base: def,
                    attributes: Vec::new(),
                    children: Vec::new(),
                };
                proof {
                    assert(records_of(node.attributes@) == Seq::<Record>::empty());
                    assert(collections_of(node.children@) == Seq::<Collection>::empty());
                    assert(node@ == Collection::bare(record));
                    lemma_collections_push(before, node);
                }
                self.stack.push(node);
                Ok(())
            },
        }
    }

    /// The node that the document holds, once its end has been read.
    fn finish(self) -> (r: Result<NodeCollection, KbinError>)
        ensures
            match self.state().finish() {
                Ok(node) => r matches Ok(found) && found@ == node,
                Err(e) => r matches Err(err) && err == e,
            },
    {
        let Gatherer { stack, root } = self;
        let mut stack = stack;
        let ghost before = stack@;
        proof {
            lemma_collections_of(before);
        }
        match root {
            Some(node) => Ok(node),
            None => {
                if stack.len() == 0 {
                    return Err(KbinError::InvalidState);
                }
                stack.truncate(1);
                match stack.pop() {
                    Some(node) => Ok(node),
                    None => Err(KbinError::InvalidState),
                }
            },
        }
    }
}

/// A node more at the end is a value more at the end.
pub proof fn lemma_collections_push(nodes: Seq<NodeCollection>, node: NodeCollection)
    ensures
        collections_of(nodes.push(node)) == collections_of(nodes).push(node@),
{
    reveal_with_fuel(collections_of, 2);
    assert(nodes.push(node).drop_last() == nodes);
}

/// A node less at the end is a value less at the end.
pub proof fn lemma_collections_drop_last(nodes: Seq<NodeCollection>)
    requires
        nodes.len() > 0,
    ensures
        collections_of(nodes.drop_last()) == collections_of(nodes).drop_last(),
        collections_of(nodes).last() == nodes.last()@,
        collections_of(nodes).len() == nodes.len(),
{
    reveal_with_fuel(collections_of, 2);
    lemma_collections_of(nodes);
    assert(collections_of(nodes) == collections_of(nodes.drop_last()).push(nodes.last()@));
}

/// There are as many nodes as mathematical values as there are nodes, and
/// each is the value of the node in its place.
pub proof fn lemma_collections_of(nodes: Seq<NodeCollection>)
    ensures
        collections_of(nodes).len() == nodes.len(),
        forall|i: int| 0 <= i < nodes.len() ==> (#[trigger] collections_of(nodes)[i]) == nodes[i]@,
    decreases nodes.len(),
{
    reveal_with_fuel(collections_of, 2);
    if nodes.len() > 0 {
        lemma_collections_of(nodes.drop_last());
        let head = collections_of(nodes.drop_last());
        assert(collections_of(nodes) == head.push(nodes.last()@));
        assert forall|i: int| 0 <= i < nodes.len() implies (#[trigger] collections_of(nodes)[i])
            == nodes[i]@ by {
            if i < nodes.len() - 1 {
                assert(head[i] == nodes.drop_last()[i]@);
            }
        }
    } else {
        assert(collections_of(nodes) == Seq::<Collection>::empty());
    }
}

/// Reads the node that the rest of a document holds, with its attributes and
/// the nodes inside it.
#[verifier::loop_isolation(false)]
pub fn collect(reader: &mut Reader) -> (r: Result<NodeCollection, KbinError>)
    requires
        old(reader).wf(),
    ensures
        match collect_from(
            old(reader).document(),
            old(reader).position(),
            old(reader).cursors(),
            Gathering::start(),
        ) {
            Ok(node) => r matches Ok(found) && found@ == node,
            Err(e) => r matches Err(err) && err == e,
        },
{
    let ghost doc = reader.document();
    let ghost goal = collect_from(doc, reader.position(), reader.cursors(), Gathering::start());
    let mut gatherer = Gatherer::new();
    loop
        invariant
            reader.wf(),
            reader.document() == doc,
            goal == collect_from(doc, reader.position(), reader.cursors(), gatherer.state()),
        decreases doc.nodes.len() - reader.position(),
    {
        proof {
            reader.lemma_wf();
            crate::reader::lemma_read_record_advances(doc, reader.position(), reader.cursors());
            lemma_collect_from(doc, reader.position(), reader.cursors(), gatherer.state());
        }
        if gatherer.is_closed() {
            return gatherer.finish();
        }
        let def = match reader.read_node_definition() {
            Ok(def) => def,
            Err(e) => {
                return Err(e);
            },
        };
        match def.node_type {
            StandardType::FileEnd => {
                return gatherer.finish();
            },
            _ => {},
        }
        match gatherer.step(def) {
            Ok(()) => {},
            Err(e) => {
                return Err(e);
            },
        }
    }
}

/// A node with its value, its attributes and the nodes inside it, as a
/// mathematical value: what a `Node` holds.
pub struct NodeView {
    /// The name of the node.
    pub key: Seq<char>,
    /// The attributes by name and value, in the order in which they were first set.
    pub attributes: Seq<(Seq<char>, Seq<char>)>,
    /// The nodes inside it, in order.
    pub children: Seq<NodeView>,
    /// The value of the node, if it has one.
    pub value: Option<ValueView>,
}

/// A node with its value, its attributes and the nodes inside it.
#[derive(Debug, PartialEq, Eq)]
pub struct Node {
    /// The name of the node.
    pub key: String,
    /// The attributes by name and value, in the order in which they were first set.
    pub attributes: Vec<(String, String)>,
    /// The nodes inside it, in order.
    pub children: Vec<Node>,
    /// The value of the node, if it has one.
    pub value: Option<Value>,
}

/// The nodes as mathematical values.
pub open spec fn nodes_view(nodes: Seq<Node>) -> Seq<NodeView>
    decreases nodes,
{
    if nodes.len() == 0 {
        Seq::empty()
    } else {
        nodes_view(nodes.drop_last()).push(nodes.last().view())
    }
}

impl View for Node {
    type V = NodeView;

    open spec fn view(&self) -> NodeView
        decreases self,
    {
        NodeView {
            key: self.key@,
            attributes: attrs_view(self.attributes@),
            children: nodes_view(self.children@),
            value: match self.value {
                Some(value) => Some(value@),
                None => None,
            },
        }
    }
}

/// A node more at the end is a value more at the end.
pub proof fn lemma_nodes_view_push(nodes: Seq<Node>, node: Node)
    ensures
        nodes_view(nodes.push(node)) == nodes_view(nodes).push(node@),
{
    reveal_with_fuel(nodes_view, 2);
    assert(nodes.push(node).drop_last() == nodes);
}

/// The attributes that attribute nodes make, in order: each sets the
/// attribute of its name to its text. A node among them that is no attribute
/// is an error.
pub open spec fn attributes_of(attributes: Seq<Record>, encoding: EncodingType) -> Result<
    Seq<(Seq<char>, Seq<char>)>,
    KbinError,
>
    decreases attributes.len(),
{
    if attributes.len() == 0 {
        Ok(Seq::empty())
    } else {
        match attributes_of(attributes.drop_last(), encoding) {
            Err(e) => Err(e),
            Ok(head) => match value_of(attributes.last(), encoding) {
                Err(e) => Err(e),
                Ok(Some(ValueView::Attribute(text))) => Ok(
                    with_attr(head, attributes.last().name, text),
                ),
                Ok(_) => Err(KbinError::InvalidState),
            },
        }
    }
}

/// The node that a collected node stands for: its name, its value, the
/// attributes that its attribute nodes make, and the nodes inside it.
pub open spec fn node_of(c: Collection, encoding: EncodingType) -> Result<NodeView, KbinError>
    decreases c, 1int,
{
    match value_of(c.base, encoding) {
        Err(e) => Err(e),
        Ok(value) => match attributes_of(c.attributes, encoding) {
            Err(e) => Err(e),
            Ok(attributes) => match children_of(c, c.children.len(), encoding) {
                Err(e) => Err(e),
                Ok(children) => Ok(NodeView { key: c.base.name, attributes, children, value }),
            },
        },
    }
}

/// The nodes that the first `n` nodes inside `c` stand for.
pub open spec fn children_of(c: Collection, n: nat, encoding: EncodingType) -> Result<
    Seq<NodeView>,
    KbinError,
>
    decreases c, 0int, n,
{
    if n == 0 || n > c.children.len() {
        Ok(Seq::empty())
    } else {
        match children_of(c, (n - 1) as nat, encoding) {
            Err(e) => Err(e),
            Ok(head) => match node_of(c.children[n - 1], encoding) {
                Err(e) => Err(e),
                Ok(node) => Ok(head.push(node)),
            },
        }
    }
}

/// An error among the first attribute nodes is the error of all of them.
pub proof fn lemma_attributes_of_error_from(
    attributes: Seq<Record>,
    encoding: EncodingType,
    k: nat,
)
    requires
        k <= attributes.len(),
        attributes_of(attributes.take(k as int), encoding) is Err,
    ensures
        attributes_of(attributes, encoding) == attributes_of(attributes.take(k as int), encoding),
    decreases attributes.len() - k,
{
    if k == attributes.len() {
        assert(attributes.take(k as int) == attributes);
    } else {
        let next = attributes.take(k + 1 as int);
        assert(next.drop_last() == attributes.take(k as int));
        lemma_attributes_of_error_from(attributes, encoding, k + 1);
    }
}

/// An error among the first nodes inside a node is the error of all of them.
pub proof fn lemma_children_of_error_from(c: Collection, k: nat, encoding: EncodingType)
    requires
        k <= c.children.len(),
        children_of(c, k, encoding) is Err,
    ensures
        children_of(c, c.children.len(), encoding) == children_of(c, k, encoding),
    decreases c.children.len() - k,
{
    if k < c.children.len() {
        lemma_children_of_error_from(c, k + 1, encoding);
    }
}

impl NodeCollection {
    /// The attributes that the attribute nodes make.
    #[verifier::loop_isolation(false)]
    fn attributes(&self, encoding: EncodingType) -> (r: Result<Vec<(String, String)>, KbinError>)
        ensures
            match attributes_of(self@.attributes, encoding) {
                Ok(attributes) => r matches Ok(found) && attrs_view(found@) == attributes,
                Err(e) => r matches Err(err) && err == e,
            },
    {
        let ghost all = records_of(self.attributes@);
        let mut attributes: Vec<(String, String)> = Vec::new();
        let mut i: usize = 0;
        proof {
            assert(all.take(0) == Seq::<Record>::empty());
            assert(attrs_view(attributes@) == Seq::<(Seq<char>, Seq<char>)>::empty());
        }
        while i < self.attributes.len()
            invariant
                i <= self.attributes.len(),
                attributes_of(all.take(i as int), encoding) == Ok::<
                    Seq<(Seq<char>, Seq<char>)>,
                    KbinError,
                >(attrs_view(attributes@)),
            decreases self.attributes.len() - i,
        {
            proof {
                let next = all.take(i + 1);
                assert(next.drop_last() == all.take(i as int));
                assert(next.last() == self.attributes@[i as int]@);
            }
            match self.attributes[i].value(encoding) {
                Ok(Some(Value::Attribute(text))) => {
                    put_attr(&mut attributes, self.attributes[i].key.clone(), text);
                },
                Ok(_) => {
                    proof {
                        lemma_attributes_of_error_from(all, encoding, (i + 1) as nat);
                    }
                    return Err(KbinError::InvalidState);
                },
                Err(e) => {
                    proof {
                        lemma_attributes_of_error_from(all, encoding, (i + 1) as nat);
                    }
                    return Err(e);
                },
            }
            i += 1;
        }
        proof {
            assert(all.take(self.attributes.len() as int) == all);
        }
        Ok(attributes)
    }

    /// The node that this collected node stands for: its name, its value,
    /// the attributes that its attribute nodes make, and the nodes inside it.
    #[verifier::loop_isolation(false)]
    pub fn as_node(&self, encoding: EncodingType) -> (r: Result<Node, KbinError>)
        ensures
            match node_of(self@, encoding) {
                Ok(node) => r matches Ok(found) && found@ == node,
                Err(e) => r matches Err(err) && err == e,
            },
        decreases self,
    {
        let ghost c = self@;
        let value = match self.base.value(encoding) {
            Ok(value) => value,
            Err(e) => {
                return Err(e);
            },
        };
        let attributes = match self.attributes(encoding) {
            Ok(attributes) => attributes,
            Err(e) => {
                return Err(e);
            },
        };
        proof {
            lemma_collections_of(self.children@);
        }
        let mut children: Vec<Node> = Vec::new();
        let mut i: usize = 0;
        proof {
            assert(nodes_view(children@) == Seq::<NodeView>::empty());
        }
        while i < self.children.len()
            invariant
                i <= self.children.len(),
                children_of(c, i as nat, encoding) == Ok::<Seq<NodeView>, KbinError>(
                    nodes_view(children@),
                ),
            decreases self.children.len() - i,
        {
            match self.children[i].as_node(encoding) {
                Ok(node) => {
                    proof {
                        lemma_nodes_view_push(children@, node);
                    }
                    children.push(node);
                },
                Err(e) => {
                    proof {
                        lemma_children_of_error_from(c, (i + 1) as nat, encoding);
                    }
                    return Err(e);
                },
            }
            i += 1;
        }
        Ok(Node { key: self.base.key.clone(), attributes, children, value })
    }
}

} // verus!
