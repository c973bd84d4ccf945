use crate::error::KbinError;
use crate::node_types::StandardType;
use crate::reader::{read_record, NodeDefinition, Reader};
use vstd::prelude::*;

verus! {

/// The walk over the fields of a record: the nodes inside an element, one
/// after the other, up to the end of the element.
///
/// Each field is taken in two steps, between which its value is the
/// caller's to deal with: `next_key` reads the node of the field, and
/// `end_key` reads the end of a field that has a value.
pub struct Struct<'a> {
    de: &'a mut Reader,
}

impl<'a> Struct<'a> {
    /// The reader from which the fields are read.
    pub closed spec fn reader(&self) -> Reader {
        *self.de
    }

    /// A walk over the fields that `de` is about to read. The names of the
    /// fields are not needed for the walk.
    pub fn new(de: &'a mut Reader, _fields: &'static [&'static str]) -> (r: Self)
        ensures
            r.reader() == *old(de),
    {
        Struct { de }
    }

    /// A walk over the fields of the record that the field just read holds:
    /// it reads from the same reader, and this walk goes on where it ends.
    pub fn nested(&mut self) -> (r: Struct<'_>)
        ensures
            r.reader() == old(self).reader(),
    {
        Struct { de: &mut *self.de }
    }

    /// Reads the node of the next field, if there is a next field: `None`
    /// where the element ends.
    ///
    /// A reader that is out of order is not read from; none ever is that the
    /// library made.
    pub fn next_key(&mut self) -> (r: Result<Option<NodeDefinition>, KbinError>)
        ensures
            final(self).reader().wf() == old(self).reader().wf(),
            final(self).reader().document() == old(self).reader().document(),
            !old(self).reader().wf() ==> r == Err::<Option<NodeDefinition>, KbinError>(
                KbinError::InvalidState,
            ) && final(self).reader() == old(self).reader(),
            old(self).reader().wf() ==> match read_record(
                old(self).reader().document(),
                old(self).reader().position(),
                old(self).reader().cursors(),
            ) {
                Ok((record, behind, next)) => {
                    &&& final(self).reader().position() == behind
                    &&& final(self).reader().cursors() == next
                    &&& if record.node_type == StandardType::NodeEnd {
                        r == Ok::<Option<NodeDefinition>, KbinError>(None)
                    } else {
                        r matches Ok(Some(def)) && def@ == record
                    }
                },
                Err(e) => r matches Err(err) && err == e,
            },
    {
        if !self.de.in_order() {
            return Err(KbinError::InvalidState);
        }
        match self.de.read_node_definition() {
            Ok(def) => match def.node_type {
                StandardType::NodeEnd => Ok(None),
                _ => Ok(Some(def)),
            },
            Err(e) => Err(e),
        }
    }

    /// Ends the field whose node was of type `node_type`.
    ///
    /// A field that is an element of its own ends where that element ends,
    /// which is not for this walk to read. Any other field has a value, and
    /// the end of an element must follow it at once.
    ///
    /// A reader that is out of order is not read from; none ever is that the
    /// library made.
    pub fn end_key(&mut self, node_type: StandardType) -> (r: Result<(), KbinError>)
        ensures
            final(self).reader().wf() == old(self).reader().wf(),
            final(self).reader().document() == old(self).reader().document(),
            node_type == StandardType::NodeStart ==> r is Ok && final(self).reader()
                == old(self).reader(),
            node_type != StandardType::NodeStart && !old(self).reader().wf() ==> r == Err::<
                (),
                KbinError,
            >(KbinError::InvalidState) && final(self).reader() == old(self).reader(),
            node_type != StandardType::NodeStart && old(self).reader().wf() ==> match read_record(
                old(self).reader().document(),
                old(self).reader().position(),
                old(self).reader().cursors(),
            ) {
                Ok((record, behind, next)) => {
                    &&& final(self).reader().position() == behind
                    &&& final(self).reader().cursors() == next
                    &&& if record.node_type == StandardType::NodeEnd {
                        r is Ok
                    } else {
                        r matches Err(err) && err == (KbinError::TypeMismatch {
                            expected: StandardType::NodeEnd.spec_id(),
                            found: record.node_type.spec_id(),
                        })
                    }
                },
                Err(e) => r matches Err(err) && err == e,
            },
    {
        match node_type {
            StandardType::NodeStart => Ok(()),
            _ => if !self.de.in_order() {
                Err(KbinError::InvalidState)
            } else {
                match self.de.read_node_definition() {
                    Ok(def) => match def.node_type {
                        StandardType::NodeEnd => Ok(()),
                        found => Err(
                            KbinError::TypeMismatch {
                                expected: StandardType::NodeEnd.id(),
                                found: found.id(),
                            },
                        ),
                    },
                    Err(e) => Err(e),
                }
            },
        }
    }
}

} // verus!
