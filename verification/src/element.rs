use crate::strings::same_text;
use vstd::prelude::*;

verus! {

/// An element as a mathematical value: what an `Element` holds.
pub struct Tree {
    /// The name of the element.
    pub name: Seq<char>,
    /// The attributes by name and value, in the order in which they were first set.
    pub attrs: Seq<(Seq<char>, Seq<char>)>,
    /// The text of the element; empty where it has none.
    pub text: Seq<char>,
    /// The elements inside it, in order.
    pub children: Seq<Tree>,
}

/// An element of a document: a name, attributes, text, and elements inside it.
#[derive(Debug, PartialEq, Eq)]
pub struct Element {
    /// The name of the element.
    pub name: String,
    /// The attributes by name and value, in the order in which they were first set.
    pub attrs: Vec<(String, String)>,
    /// The text of the element; empty where it has none.
    pub text: String,
    /// The elements inside it, in order.
    pub children: Vec<Element>,
}

/// The attributes as mathematical values.
pub open spec fn attrs_view(attrs: Seq<(String, String)>) -> Seq<(Seq<char>, Seq<char>)> {
    attrs.map_values(|p: (String, String)| (p.0@, p.1@))
}

/// The elements as mathematical values.
pub open spec fn trees_of(elements: Seq<Element>) -> Seq<Tree>
    decreases elements,
{
    if elements.len() == 0 {
        Seq::empty()
    } else {
        trees_of(elements.drop_last()).push(elements.last().view())
    }
}

impl View for Element {
    type V = Tree;

    open spec fn view(&self) -> Tree
        decreases self,
    {
        Tree {
            name: self.name@,
            attrs: attrs_view(self.attrs@),
            text: self.text@,
            children: trees_of(self.children@),
        }
    }
}

/// The place of the attribute called `name` among `attrs`, if there is one.
pub open spec fn find_attr(attrs: Seq<(Seq<char>, Seq<char>)>, name: Seq<char>) -> Option<int>
    decreases attrs.len(),
{
    if attrs.len() == 0 {
        None
    } else {
        match find_attr(attrs.drop_last(), name) {
            Some(i) => Some(i),
            None => if attrs.last().0 == name {
                Some(attrs.len() - 1)
            } else {
                None
            },
        }
    }
}

/// The attributes after the one called `name` has been given `value`: in its
/// old place where there was one, at the end otherwise.
pub open spec fn with_attr(
    attrs: Seq<(Seq<char>, Seq<char>)>,
    name: Seq<char>,
    value: Seq<char>,
) -> Seq<(Seq<char>, Seq<char>)> {
    match find_attr(attrs, name) {
        Some(i) => attrs.update(i, (name, value)),
        None => attrs.push((name, value)),
    }
}

impl Tree {
    /// An element with a name and nothing else.
    pub open spec fn bare(name: Seq<char>) -> Tree {
        Tree { name, attrs: Seq::empty(), text: Seq::empty(), children: Seq::empty() }
    }

    /// The element with the attribute called `name` set to `value`.
    pub open spec fn set_attr(self, name: Seq<char>, value: Seq<char>) -> Tree {
        Tree { attrs: with_attr(self.attrs, name, value), ..self }
    }

    /// The element with `text` as its text.
    pub open spec fn set_text(self, text: Seq<char>) -> Tree {
        Tree { text, ..self }
    }

    /// The element with `child` as its last child.
    pub open spec fn append_child(self, child: Tree) -> Tree {
        Tree { children: self.children.push(child), ..self }
    }

    /// The value of the attribute called `name`, if the element has it.
    pub open spec fn attr(self, name: Seq<char>) -> Option<Seq<char>> {
        match find_attr(self.attrs, name) {
            Some(i) => Some(self.attrs[i].1),
            None => None,
        }
    }
}

/// The place of the attribute called `name` among `attrs`, if there is one.
pub fn attr_position(attrs: &Vec<(String, String)>, name: &str) -> (r: Option<usize>)
    ensures
        match r {
            Some(i) => find_attr(attrs_view(attrs@), name@) == Some(i as int) && i < attrs@.len(),
            None => find_attr(attrs_view(attrs@), name@) is None,
        },
{
    let mut i: usize = 0;
    let ghost all = attrs_view(attrs@);
    proof {
        assert(all.take(0) == Seq::<(Seq<char>, Seq<char>)>::empty());
    }
    while i < attrs.len()
        invariant
            i <= attrs.len(),
            all == attrs_view(attrs@),
            find_attr(all.take(i as int), name@) is None,
        decreases attrs.len() - i,
    {
        proof {
            let next = all.take(i + 1);
            assert(next.drop_last() == all.take(i as int));
            assert(next.last() == all[i as int]);
        }
        if same_text(attrs[i].0.as_str(), name) {
            proof {
                lemma_find_attr_from(all, name@, (i + 1) as nat);
            }
            return Some(i);
        }
        i += 1;
    }
    proof {
        assert(all.take(attrs.len() as int) == all);
    }
    None
}

/// Gives the attribute called `name` the value `value`: in its old place
/// where there is one, at the end otherwise.
pub fn put_attr(attrs: &mut Vec<(String, String)>, name: String, value: String)
    ensures
        attrs_view(final(attrs)@) == with_attr(attrs_view(old(attrs)@), name@, value@),
{
    let ghost before = attrs_view(attrs@);
    match attr_position(attrs, name.as_str()) {
        Some(i) => {
            attrs.set(i, (name, value));
            assert(attrs_view(attrs@) == before.update(i as int, (name@, value@)));
        },
        None => {
            attrs.push((name, value));
            assert(attrs_view(attrs@) == before.push((name@, value@)));
        },
    }
}

impl Element {
    /// An element with a name and nothing else.
    pub fn bare(name: String) -> (r: Element)
        ensures
            r@ == Tree::bare(name@),
    {
        let r = Element { name, attrs: Vec::new(), text: String::new(), children: Vec::new() };
        proof {
            assert(attrs_view(r.attrs@) == Seq::<(Seq<char>, Seq<char>)>::empty());
            assert(trees_of(r.children@) == Seq::<Tree>::empty());
        }
        r
    }

    /// The value of the attribute called `name`, if the element has it.
    pub fn attr(&self, name: &str) -> (r: Option<&String>)
        ensures
            match r {
                Some(value) => self@.attr(name@) == Some(value@),
                None => self@.attr(name@) is None,
            },
    {
        match attr_position(&self.attrs, name) {
            Some(i) => Some(&self.attrs[i].1),
            None => None,
        }
    }

    /// Sets the attribute called `name` to `value`: in its old place where the
    /// element has it already, as its last attribute otherwise.
    pub fn set_attr(&mut self, name: String, value: String)
        ensures
            final(self)@ == old(self)@.set_attr(name@, value@),
    {
        put_attr(&mut self.attrs, name, value);
    }

    /// Makes `text` the text of the element.
    pub fn set_text(&mut self, text: String)
        ensures
            final(self)@ == old(self)@.set_text(text@),
    {
        self.text = text;
    }

    /// Makes `child` the last child of the element.
    pub fn append_child(&mut self, child: Element)
        ensures
            final(self)@ == old(self)@.append_child(child@),
    {
        let ghost before = self.children@;
        self.children.push(child);
        assert(self.children@.drop_last() == before);
    }
}

/// There are as many elements as mathematical values as there are elements,
/// and each is the value of the element in its place.
pub proof fn lemma_trees_of(elements: Seq<Element>)
    ensures
        trees_of(elements).len() == elements.len(),
        forall|i: int|
            0 <= i < elements.len() ==> (#[trigger] trees_of(elements)[i]) == elements[i]@,
    decreases elements.len(),
{
    reveal_with_fuel(trees_of, 2);
    if elements.len() > 0 {
        lemma_trees_of(elements.drop_last());
        let head = trees_of(elements.drop_last());
        assert(trees_of(elements) == head.push(elements.last()@));
        assert forall|i: int| 0 <= i < elements.len() implies (#[trigger] trees_of(elements)[i])
            == elements[i]@ by {
            if i < elements.len() - 1 {
                assert(head[i] == elements.drop_last()[i]@);
            }
        }
    } else {
        assert(trees_of(elements) == Seq::<Tree>::empty());
    }
}

/// A name that is found among the first attributes is found there among all.
pub proof fn lemma_find_attr_from(attrs: Seq<(Seq<char>, Seq<char>)>, name: Seq<char>, k: nat)
    requires
        k <= attrs.len(),
        find_attr(attrs.take(k as int), name) is Some,
    ensures
        find_attr(attrs, name) == find_attr(attrs.take(k as int), name),
    decreases attrs.len() - k,
{
    if k == attrs.len() {
        assert(attrs.take(k as int) == attrs);
    } else {
        let next = attrs.take(k + 1 as int);
        assert(next.drop_last() == attrs.take(k as int));
        lemma_find_attr_from(attrs, name, k + 1);
    }
}

} // verus!
