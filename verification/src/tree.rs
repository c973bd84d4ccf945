use crate::byte_buffer::Cursors;
use crate::element::{with_attr, Element, Tree};
use crate::encoding_type::EncodingType;
use crate::error::KbinError;
use crate::hex::{hex_text, push_hex};
use crate::lanes::{float_lanes, float_text, FloatBits, FloatText};
use crate::node_types::{LaneKind, StandardType};
use crate::reader::{read_record, Document, NodeDefinition, Reader, Record};
use crate::strings::string_of;
use crate::text::{decimal, push_unsigned};
use vstd::prelude::*;

verus! {

/// What reading prescribes of an element.
///
/// It prescribes everything but the text of floating-point values, of which
/// it prescribes the number of lanes only: their text is whatever the
/// conversion in use makes of their bits.
pub struct Sketch {
    /// The name of the element.
    pub name: Seq<char>,
    /// The attributes by name and value, in the order in which they were first set.
    pub attrs: Seq<(Seq<char>, Seq<char>)>,
    /// The text of the element; empty where the value is floating point.
    pub text: Seq<char>,
    /// The numbers in the lanes, where the value is floating point.
    pub float_lanes: Option<Seq<FloatBits>>,
    /// The elements inside it, in order.
    pub children: Seq<Sketch>,
}

impl Sketch {
    /// An element with a name and nothing else.
    pub open spec fn bare(name: Seq<char>) -> Sketch {
        Sketch {
            name,
            attrs: Seq::empty(),
            text: Seq::empty(),
            float_lanes: None,
            children: Seq::empty(),
        }
    }

    /// The element with the attribute called `name` set to `value`.
    pub open spec fn set_attr(self, name: Seq<char>, value: Seq<char>) -> Sketch {
        Sketch { attrs: with_attr(self.attrs, name, value), ..self }
    }

    /// The element with `text` as its text.
    pub open spec fn set_text(self, text: Seq<char>) -> Sketch {
        Sketch { text, ..self }
    }

    /// The element with a floating-point value of the given lanes.
    pub open spec fn set_float_lanes(self, lanes: Seq<FloatBits>) -> Sketch {
        Sketch { float_lanes: Some(lanes), ..self }
    }

    /// The element with `child` as its last child.
    pub open spec fn append_child(self, child: Sketch) -> Sketch {
        Sketch { children: self.children.push(child), ..self }
    }
}

/// Whether the text of an element is what reading prescribes: the text of
/// the sketch, or, for a floating-point value, texts that `floats` gave for
/// its lanes, separated by single blanks.
pub open spec fn text_drawn<F: FloatText>(s: Sketch, text: Seq<char>, floats: &F)
    -> bool {
    match s.float_lanes {
        Some(lanes) => float_text(floats, lanes, text),
        None => text == s.text,
    }
}

/// Whether an element is what reading prescribes: the same name, attributes
/// and children, and the text that is prescribed.
pub open spec fn drawn<F: FloatText>(s: Sketch, t: Tree, floats: &F) -> bool
    decreases s,
{
    &&& s.name == t.name
    &&& s.attrs == t.attrs
    &&& text_drawn(s, t.text, floats)
    &&& s.children.len() == t.children.len()
    &&& forall|i: int|
        0 <= i < s.children.len() ==> drawn(#[trigger] s.children[i], t.children[i], floats)
}

/// The element that a node other than an attribute or an end marker opens.
///
/// An element with a value says so in attributes: `__type` holds the name of
/// the type, `__size` the number of bytes of a blob, `__count` the number of
/// values of an array. Its text is the value: a string decoded, a blob in
/// hexadecimal, everything else lane by lane.
#[verifier::opaque]
pub open spec fn open_element(record: Record, encoding: EncodingType) -> Result<Sketch, KbinError> {
    let ty = record.node_type;
    let bare = Sketch::bare(record.name);
    let typed = bare.set_attr("__type"@, ty.spec_name()@);
    let counted = if record.is_array {
        typed.set_attr("__count"@, decimal(record.payload.len() / ty.footprint()))
    } else {
        typed
    };
    match ty.spec_kind() {
        LaneKind::Marker => if ty == StandardType::NodeStart {
            Ok(bare)
        } else {
            Err(KbinError::InvalidNodeType { node_type: ty.spec_id() })
        },
        LaneKind::Text => match encoding.spec_decode_bytes(record.payload) {
            Ok(text) => Ok(typed.set_text(text)),
            Err(e) => Err(e),
        },
        LaneKind::Binary => Ok(
            typed.set_attr("__size"@, decimal(record.payload.len())).set_text(
                hex_text(record.payload),
            ),
        ),
        LaneKind::Float => match ty.parse_refusal(record.payload) {
            Some(e) => Err(e),
            None => Ok(counted.set_float_lanes(float_lanes(ty.spec_size() as nat, record.payload))),
        },
        _ => match ty.spec_parse_bytes(record.payload) {
            Ok(text) => Ok(counted.set_text(text)),
            Err(e) => Err(e),
        },
    }
}

/// The elements that are open, the outermost first, and the outermost element
/// once it has been closed.
pub struct Build {
    /// The elements that are open, the outermost first.
    pub stack: Seq<Sketch>,
    /// The outermost element, once it has been closed.
    pub root: Option<Sketch>,
}

impl Build {
    /// The state before any node has been read.
    pub open spec fn start() -> Build {
        Build { stack: Seq::empty(), root: None }
    }

    /// The state after the innermost open element has been closed: it is the
    /// last child of the element around it, or, where there is none around
    /// it, the outermost element.
    pub open spec fn close(self) -> Result<Build, KbinError> {
        if self.stack.len() == 0 {
            Err(KbinError::InvalidState)
        } else if self.stack.len() == 1 {
            Ok(Build { stack: Seq::empty(), root: Some(self.stack[0]) })
        } else {
            let child = self.stack.last();
            let rest = self.stack.drop_last();
            Ok(
                Build {
                    stack: rest.drop_last().push(rest.last().append_child(child)),
                    root: None,
                },
            )
        }
    }

    /// The state after the node `record`, which is not the end of the document.
    ///
    /// A node opens an element inside the innermost open one; an attribute
    /// belongs to the innermost open element; the end of an element closes the
    /// innermost open element and makes it the last child of the one around
    /// it. Nodes are taken into account only while the outermost element is
    /// not closed.
    pub open spec fn step(self, record: Record, encoding: EncodingType) -> Result<
        Build,
        KbinError,
    > {
        if record.node_type == StandardType::NodeEnd {
            self.close()
        } else if record.node_type == StandardType::Attribute {
            if self.stack.len() == 0 {
                Err(KbinError::InvalidState)
            } else {
                match encoding.spec_decode_bytes(record.payload) {
                    Ok(value) => Ok(
                        Build {
                            stack: self.stack.drop_last().push(
                                self.stack.last().set_attr(record.name, value),
                            ),
                            root: None,
                        },
                    ),
                    Err(e) => Err(e),
                }
            }
        } else {
            match open_element(record, encoding) {
                Ok(element) => Ok(Build { stack: self.stack.push(element), root: None }),
                Err(e) => Err(e),
            }
        }
    }

    /// The element that the document holds, once its reading has ended: the
    /// outermost element, closed or not. A document without any element holds none.
    pub open spec fn finish(self) -> Result<Sketch, KbinError> {
        match self.root {
            Some(root) => Ok(root),
            None => if self.stack.len() > 0 {
                Ok(self.stack[0])
            } else {
                Err(KbinError::InvalidState)
            },
        }
    }
}

/// The element that the rest of a document holds, read from the given
/// positions on with the given elements open.
///
/// The nodes are read one by one, and the first error ends the reading. The
/// reading ends where the outermost element is closed: whatever follows it is
/// cut off. It also ends at the end of the document, which must be marked if
/// the outermost element is not closed; the elements that are open then are
/// cut off as well.
#[verifier::opaque]
pub open spec fn read_from(doc: Document, pos: nat, cur: Cursors, build: Build) -> Result<
    Sketch,
    KbinError,
>
    decreases doc.nodes.len() - pos,
    via read_from_decreases
{
    if build.root is Some {
        build.finish()
    } else {
        match read_record(doc, pos, cur) {
            Err(e) => Err(e),
            Ok((record, behind, next)) => if record.node_type == StandardType::FileEnd {
                build.finish()
            } else {
                match build.step(record, doc.encoding) {
                    Err(e) => Err(e),
                    Ok(grown) => read_from(doc, behind, next, grown),
                }
            },
        }
    }
}

#[via_fn]
proof fn read_from_decreases(doc: Document, pos: nat, cur: Cursors, build: Build) {
    crate::reader::lemma_read_record_moves(doc, pos, cur);
}

/// What reading from given positions comes to, by what the next node is.
pub proof fn lemma_read_from(doc: Document, pos: nat, cur: Cursors, build: Build)
    ensures
        read_from(doc, pos, cur, build) == if build.root is Some {
            build.finish()
        } else {
            match read_record(doc, pos, cur) {
                Err(e) => Err(e),
                Ok((record, behind, next)) => if record.node_type == StandardType::FileEnd {
                    build.finish()
                } else {
                    match build.step(record, doc.encoding) {
                        Err(e) => Err(e),
                        Ok(grown) => read_from(doc, behind, next, grown),
                    }
                },
            }
        },
{
    reveal(read_from);
}

/// The element that a document holds, and the encoding of the document.
pub open spec fn spec_decode(input: Seq<u8>) -> Result<(Sketch, EncodingType), KbinError> {
    match crate::reader::spec_parse_header(input) {
        Err(e) => Err(e),
        Ok(doc) => match read_from(doc, 0, Cursors::start(), Build::start()) {
            Err(e) => Err(e),
            Ok(root) => Ok((root, doc.encoding)),
        },
    }
}

/// An element that is as prescribed stays so when an attribute is set.
pub proof fn lemma_drawn_set_attr<F: FloatText>(
    s: Sketch,
    t: Tree,
    name: Seq<char>,
    value: Seq<char>,
    floats: &F,
)
    requires
        drawn(s, t, floats),
    ensures
        drawn(s.set_attr(name, value), t.set_attr(name, value), floats),
{
    let s2 = s.set_attr(name, value);
    let t2 = t.set_attr(name, value);
    assert forall|i: int| 0 <= i < s2.children.len() implies drawn(
        #[trigger] s2.children[i],
        t2.children[i],
        floats,
    ) by {
        assert(drawn(s.children[i], t.children[i], floats));
    }
}

/// An element that is as prescribed stays so when it gets a child that is as prescribed.
pub proof fn lemma_drawn_append_child<F: FloatText>(
    s: Sketch,
    t: Tree,
    cs: Sketch,
    ct: Tree,
    floats: &F,
)
    requires
        drawn(s, t, floats),
        drawn(cs, ct, floats),
    ensures
        drawn(s.append_child(cs), t.append_child(ct), floats),
{
    let s2 = s.append_child(cs);
    let t2 = t.append_child(ct);
    assert forall|i: int| 0 <= i < s2.children.len() implies drawn(
        #[trigger] s2.children[i],
        t2.children[i],
        floats,
    ) by {
        if i < s.children.len() {
            assert(drawn(s.children[i], t.children[i], floats));
        }
    }
}

/// Whether the elements are, one by one, what reading prescribes.
pub open spec fn stack_drawn<F: FloatText>(
    sketches: Seq<Sketch>,
    elements: Seq<Element>,
    floats: &F,
) -> bool {
    &&& sketches.len() == elements.len()
    &&& forall|i: int|
        0 <= i < sketches.len() ==> drawn(#[trigger] sketches[i], elements[i]@, floats)
}

/// Whether the outermost element, if it has been closed, is what reading prescribes.
pub open spec fn root_drawn<F: FloatText>(
    sketch: Option<Sketch>,
    element: Option<Element>,
    floats: &F,
) -> bool {
    match (sketch, element) {
        (Some(s), Some(e)) => drawn(s, e@, floats),
        (None, None) => true,
        _ => false,
    }
}

/// The decimal numeral of `n` as a string.
pub fn number_text(n: usize) -> (r: String)
    ensures
        r@ == decimal(n as nat),
{
    let mut chars: Vec<char> = Vec::new();
    push_unsigned(&mut chars, n as u64);
    assert(chars@ == Seq::<char>::empty() + decimal(n as nat));
    string_of(&chars)
}

/// Makes the element that a node other than an attribute or an end marker opens.
///
/// The text of a floating-point value is made of the texts that `floats`
/// gives for its lanes.
pub fn read_node<F: FloatText>(
    def: NodeDefinition,
    encoding: EncodingType,
    floats: &F,
) -> (r: Result<Element, KbinError>)
    ensures
        match open_element(def@, encoding) {
            Ok(sketch) => r matches Ok(element) && drawn(sketch, element@, floats),
            Err(e) => r matches Err(err) && err == e,
        },
{
    reveal(open_element);
    let ghost record = def@;
    let NodeDefinition { node_type, is_array, key, value } = def;
    let ty = node_type;
    let mut elem = Element::bare(key);
    match ty.kind() {
        LaneKind::Marker => {
            match ty {
                StandardType::NodeStart => Ok(elem),
                _ => Err(KbinError::InvalidNodeType { node_type: ty.id() }),
            }
        },
        LaneKind::Text => {
            match encoding.decode_bytes(value.as_slice()) {
                Ok(text) => {
                    elem.set_attr("__type".to_owned(), ty.name().to_owned());
                    elem.set_text(text);
                    Ok(elem)
                },
                Err(e) => Err(e),
            }
        },
        LaneKind::Binary => {
            elem.set_attr("__type".to_owned(), ty.name().to_owned());
            elem.set_attr("__size".to_owned(), number_text(value.len()));
            let mut chars: Vec<char> = Vec::new();
            push_hex(&mut chars, value.as_slice());
            assert(chars@ == Seq::<char>::empty() + hex_text(value@));
            elem.set_text(string_of(&chars));
            Ok(elem)
        },
        _ => {
            match ty.parse_bytes(value.as_slice(), floats) {
                Ok(text) => {
                    proof {
                        crate::lanes::lemma_lane_fits(ty);
                        let z = ty.spec_size() as int;
                        let c = ty.spec_count() as int;
                        assert(0 < z * c <= 128) by (nonlinear_arith)
                            requires
                                1 <= z <= 8,
                                1 <= c <= 16,
                        ;
                    }
                    elem.set_attr("__type".to_owned(), ty.name().to_owned());
                    if is_array {
                        let footprint: usize = (ty.size() as usize) * (ty.count() as usize);
                        elem.set_attr("__count".to_owned(), number_text(value.len() / footprint));
                    }
                    elem.set_text(text);
                    proof {
                        let sketch = open_element(record, encoding)->Ok_0;
                        assert(text_drawn(sketch, elem@.text, floats));
                        assert(drawn(sketch, elem@, floats));
                    }
                    Ok(elem)
                },
                Err(e) => Err(e),
            }
        },
    }
}

/// The elements that are open while a document is read, and the outermost
/// element once it has been closed.
pub struct Builder {
    stack: Vec<Element>,
    root: Option<Element>,
}

impl Builder {
    /// Whether the elements are what reading prescribes in the state `build`.
    pub closed spec fn draws<F: FloatText>(&self, build: Build, floats: &F) -> bool {
        &&& stack_drawn(build.stack, self.stack@, floats)
        &&& root_drawn(build.root, self.root, floats)
    }

    /// A builder before any node has been read.
    pub fn new<F: FloatText>(Ghost(floats): Ghost<&F>) -> (r: Builder)
        ensures
            r.draws(Build::start(), floats),
    {
        Builder { stack: Vec::new(), root: None }
    }

    /// Whether the outermost element has been closed.
    fn is_closed<F: FloatText>(
        &self,
        Ghost(build): Ghost<Build>,
        Ghost(floats): Ghost<&F>,
    ) -> (r: bool)
        requires
            self.draws(build, floats),
        ensures
            r == build.root is Some,
    {
        self.root.is_some()
    }

    /// Closes the innermost open element.
    fn close<F: FloatText>(
        &mut self,
        Ghost(build): Ghost<Build>,
        Ghost(floats): Ghost<&F>,
    ) -> (r: Result<(), KbinError>)
        requires
            old(self).draws(build, floats),
            build.root is None,
        ensures
            match build.close() {
                Ok(grown) => r is Ok && final(self).draws(grown, floats),
                Err(e) => r matches Err(err) && err == e,
            },
    {
        if self.stack.len() == 0 {
            return Err(KbinError::InvalidState);
        }
        let n = self.stack.len();
        let child = self.stack.pop().unwrap();
        match self.stack.pop() {
            None => {
                self.root = Some(child);
            },
            Some(parent) => {
                let mut parent = parent;
                let ghost parent_before = parent@;
                parent.append_child(child);
                self.stack.push(parent);
                proof {
                    lemma_drawn_append_child(
                        build.stack[n - 2],
                        parent_before,
                        build.stack[n - 1],
                        child@,
                        floats,
                    );
                }
            },
        }
        Ok(())
    }

    /// Sets an attribute of the innermost open element.
    fn set_attribute<F: FloatText>(
        &mut self,
        name: String,
        value: String,
        Ghost(build): Ghost<Build>,
        Ghost(floats): Ghost<&F>,
    ) -> (r: Result<(), KbinError>)
        requires
            old(self).draws(build, floats),
            build.root is None,
        ensures
            build.stack.len() == 0 ==> (r matches Err(err) && err == KbinError::InvalidState),
            build.stack.len() > 0 ==> r is Ok && final(self).draws(
                Build {
                    stack: build.stack.drop_last().push(
                        build.stack.last().set_attr(name@, value@),
                    ),
                    root: None,
                },
                floats,
            ),
    {
        if self.stack.len() == 0 {
            return Err(KbinError::InvalidState);
        }
        let n = self.stack.len();
        let mut top = self.stack.pop().unwrap();
        let ghost top_before = top@;
        top.set_attr(name, value);
        self.stack.push(top);
        proof {
            lemma_drawn_set_attr(build.stack[n - 1], top_before, name@, value@, floats);
        }
        Ok(())
    }

    /// Opens `element` inside the innermost open element.
    fn open<F: FloatText>(
        &mut self,
        element: Element,
        Ghost(build): Ghost<Build>,
        Ghost(sketch): Ghost<Sketch>,
        Ghost(floats): Ghost<&F>,
    )
        requires
            old(self).draws(build, floats),
            build.root is None,
            drawn(sketch, element@, floats),
        ensures
            final(self).draws(Build { stack: build.stack.push(sketch), root: None }, floats),
    {
        self.stack.push(element);
    }

    /// Takes the node `def`, which is not the end of the document, into account.
    fn step<F: FloatText>(
        &mut self,
        def: NodeDefinition,
        encoding: EncodingType,
        floats: &F,
        Ghost(build): Ghost<Build>,
    ) -> (r: Result<(), KbinError>)
        requires
            old(self).draws(build, floats),
            build.root is None,
        ensures
            match build.step(def@, encoding) {
                Ok(grown) => r is Ok && final(self).draws(grown, floats),
                Err(e) => r matches Err(err) && err == e,
            },
    {
        match def.node_type {
            StandardType::NodeEnd => self.close::<F>(Ghost(build), Ghost(floats)),
            StandardType::Attribute => {
                if self.stack.len() == 0 {
                    return Err(KbinError::InvalidState);
                }
                match encoding.decode_bytes(def.value.as_slice()) {
                    Ok(value) => self.set_attribute::<F>(
                        def.key,
                        value,
                        Ghost(build),
                        Ghost(floats),
                    ),
                    Err(e) => Err(e),
                }
            },
            _ => {
                let ghost record = def@;
                match read_node(def, encoding, floats) {
                    Ok(element) => {
                        self.open::<F>(
                            element,
                            Ghost(build),
                            Ghost(open_element(record, encoding)->Ok_0),
                            Ghost(floats),
                        );
                        Ok(())
                    },
                    Err(e) => Err(e),
                }
            },
        }
    }

    /// The element that the document holds, once its end has been read.
    fn finish<F: FloatText>(
        self,
        Ghost(build): Ghost<Build>,
        Ghost(floats): Ghost<&F>,
    ) -> (r: Result<Element, KbinError>)
        requires
            self.draws(build, floats),
        ensures
            match build.finish() {
                Ok(sketch) => r matches Ok(element) && drawn(sketch, element@, floats),
                Err(e) => r matches Err(err) && err == e,
            },
    {
        let Builder { stack, root } = self;
        let mut stack = stack;
        match root {
            Some(element) => Ok(element),
            None => {
                if stack.len() == 0 {
                    return Err(KbinError::InvalidState);
                }
                stack.truncate(1);
                match stack.pop() {
                    Some(element) => Ok(element),
                    None => Err(KbinError::InvalidState),
                }
            },
        }
    }
}

/// Reads the element that the rest of a document holds.
///
/// The nodes are read one by one until the outermost element is closed or
/// the document ends; the first error ends the reading. The text of floating-point values is the one that
/// made of the texts that `floats` gives for their lanes.
#[verifier::loop_isolation(false)]
pub fn read_tree<F: FloatText>(reader: &mut Reader, floats: &F) -> (r: Result<
    Element,
    KbinError,
>)
    requires
        old(reader).wf(),
    ensures
        match read_from(
            old(reader).document(),
            old(reader).position(),
            old(reader).cursors(),
            Build::start(),
        ) {
            Ok(sketch) => r matches Ok(element) && drawn(sketch, element@, floats),
            Err(e) => r matches Err(err) && err == e,
        },
{
    let ghost doc = reader.document();
    let ghost goal = read_from(doc, reader.position(), reader.cursors(), Build::start());
    let ghost mut build = Build::start();
    let encoding = reader.encoding();
    let mut builder = Builder::new::<F>(Ghost(floats));
    loop
        invariant
            reader.wf(),
            reader.document() == doc,
            encoding == doc.encoding,
            goal == read_from(doc, reader.position(), reader.cursors(), build),
            builder.draws(build, floats),
        decreases doc.nodes.len() - reader.position(),
    {
        proof {
            reader.lemma_wf();
            crate::reader::lemma_read_record_advances(doc, reader.position(), reader.cursors());
            lemma_read_from(doc, reader.position(), reader.cursors(), build);
        }
        if builder.is_closed::<F>(Ghost(build), Ghost(floats)) {
            return builder.finish::<F>(Ghost(build), Ghost(floats));
        }
        let def = match reader.read_node_definition() {
            Ok(def) => def,
            Err(e) => {
                return Err(e);
            },
        };
        match def.node_type {
            StandardType::FileEnd => {
                return builder.finish::<F>(Ghost(build), Ghost(floats));
            },
            _ => {},
        }
        let ghost record = def@;
        match builder.step(def, encoding, floats, Ghost(build)) {
            Ok(()) => {
                proof {
                    build = build.step(record, encoding)->Ok_0;
                }
            },
            Err(e) => {
                return Err(e);
            },
        }
    }
}

} // verus!
