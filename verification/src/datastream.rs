//! One reactive stream of any of the three shapes.

use vstd::prelude::*;

use crate::errors::{CommanderError, ErrorKind};
use crate::list_stream::{ListChangeModel, ListStream};
use crate::model::ValueModel;
use crate::tree_stream::{TreeChangeModel, TreeEntryModel, TreeStream};
use crate::value_stream::{ValueChangeModel, ValueStream};

verus! {

/// The shape of a stream.
#[derive(Clone, Copy, Debug, PartialEq, Eq, Structural)]
pub enum DataStreamType {
    Value,
    List,
    Tree,
}

/// A stream of one of the three shapes.
pub enum DataStream {
    List(ListStream),
    Tree(TreeStream),
    Value(ValueStream),
}

impl DataStream {
    /// The shape of this stream.
    pub open spec fn kind(&self) -> DataStreamType {
        match self {
            DataStream::List(_) => DataStreamType::List,
            DataStream::Tree(_) => DataStreamType::Tree,
            DataStream::Value(_) => DataStreamType::Value,
        }
    }

    /// The structural invariant of the stream inside.
    pub open spec fn wf(&self) -> bool {
        match self {
            DataStream::List(l) => l.wf(),
            DataStream::Tree(t) => t.wf(),
            DataStream::Value(v) => v.wf(),
        }
    }

    /// The shape of this stream, as a value.
    pub fn stream_type(&self) -> (r: DataStreamType)
        ensures
            r == self.kind(),
    {
        match self {
            DataStream::List(_) => DataStreamType::List,
            DataStream::Tree(_) => DataStreamType::Tree,
            DataStream::Value(_) => DataStreamType::Value,
        }
    }

    /// The list stream inside, or a `TypeMismatch` error.
    pub fn try_get_list(&self) -> (r: Result<&ListStream, CommanderError>)
        ensures
            r is Ok <==> self is List,
            r matches Ok(l) ==> *l == self->List_0,
            r matches Err(e) ==> e.kind == ErrorKind::TypeMismatch,
    {
        match self {
            DataStream::List(l) => Ok(l),
            _ => Err(
                CommanderError::new(
                    ErrorKind::TypeMismatch,
                    crate::strings::str_to_string("the stream is not list-shaped"),
                ),
            ),
        }
    }

    /// The list stream inside, for mutation, or a `TypeMismatch` error.
    pub fn try_get_list_mut(&mut self) -> (r: Result<&mut ListStream, CommanderError>)
        ensures
            r is Ok <==> *old(self) is List,
            r matches Ok(l) ==> *l == (*old(self))->List_0 && *final(self) == DataStream::List(
                *final(l),
            ),
            r matches Err(e) ==> e.kind == ErrorKind::TypeMismatch && *final(self) == *old(self),
    {
        match self {
            DataStream::List(l) => Ok(l),
            _ => Err(
                CommanderError::new(
                    ErrorKind::TypeMismatch,
                    crate::strings::str_to_string("the stream is not list-shaped"),
                ),
            ),
        }
    }

    /// The tree stream inside, or a `TypeMismatch` error.
    pub fn try_get_tree(&self) -> (r: Result<&TreeStream, CommanderError>)
        ensures
            r is Ok <==> self is Tree,
            r matches Ok(t) ==> *t == self->Tree_0,
            r matches Err(e) ==> e.kind == ErrorKind::TypeMismatch,
    {
        match self {
            DataStream::Tree(t) => Ok(t),
            _ => Err(
                CommanderError::new(
                    ErrorKind::TypeMismatch,
                    crate::strings::str_to_string("the stream is not tree-shaped"),
                ),
            ),
        }
    }

    /// The tree stream inside, for mutation, or a `TypeMismatch` error.
    pub fn try_get_tree_mut(&mut self) -> (r: Result<&mut TreeStream, CommanderError>)
        ensures
            r is Ok <==> *old(self) is Tree,
            r matches Ok(t) ==> *t == (*old(self))->Tree_0 && *final(self) == DataStream::Tree(
                *final(t),
            ),
            r matches Err(e) ==> e.kind == ErrorKind::TypeMismatch && *final(self) == *old(self),
    {
        match self {
            DataStream::Tree(t) => Ok(t),
            _ => Err(
                CommanderError::new(
                    ErrorKind::TypeMismatch,
                    crate::strings::str_to_string("the stream is not tree-shaped"),
                ),
            ),
        }
    }

    /// The value stream inside, or a `TypeMismatch` error.
    pub fn try_get_value(&self) -> (r: Result<&ValueStream, CommanderError>)
        ensures
            r is Ok <==> self is Value,
            r matches Ok(v) ==> *v == self->Value_0,
            r matches Err(e) ==> e.kind == ErrorKind::TypeMismatch,
    {
        match self {
            DataStream::Value(v) => Ok(v),
            _ => Err(
                CommanderError::new(
                    ErrorKind::TypeMismatch,
                    crate::strings::str_to_string("the stream is not value-shaped"),
                ),
            ),
        }
    }

    /// The value stream inside, for mutation, or a `TypeMismatch` error.
    pub fn try_get_value_mut(&mut self) -> (r: Result<&mut ValueStream, CommanderError>)
        ensures
            r is Ok <==> *old(self) is Value,
            r matches Ok(v) ==> *v == (*old(self))->Value_0 && *final(self) == DataStream::Value(
                *final(v),
            ),
            r matches Err(e) ==> e.kind == ErrorKind::TypeMismatch && *final(self) == *old(self),
    {
        match self {
            DataStream::Value(v) => Ok(v),
            _ => Err(
                CommanderError::new(
                    ErrorKind::TypeMismatch,
                    crate::strings::str_to_string("the stream is not value-shaped"),
                ),
            ),
        }
    }

    /// How tearing a stream down changes it: the content is emptied and
    /// the terminal `Destroy` change is broadcast; the shape, the
    /// back-channel history, and a list's paging flag stay.
    pub open spec fn destroyed_step(before: DataStream, after: DataStream) -> bool {
        match before {
            DataStream::List(b) => after matches DataStream::List(a) && {
                &&& a.items_model() == Seq::<ValueModel>::empty()
                &&& a.updates_model() == b.updates_model().push(ListChangeModel::Destroy)
                &&& a.requests_model() == b.requests_model()
                &&& a.has_more() == b.has_more()
            },
            DataStream::Tree(b) => after matches DataStream::Tree(a) && {
                &&& a.entries_model() == Seq::<TreeEntryModel>::empty()
                &&& a.updates_model() == b.updates_model().push(TreeChangeModel::Destroy)
                &&& a.requests_model() == b.requests_model()
            },
            DataStream::Value(b) => after matches DataStream::Value(a) && {
                &&& a.current() is None
                &&& a.updates_model() == b.updates_model().push(ValueChangeModel::Destroy)
            },
        }
    }

    /// The number of changes this stream has ever broadcast.
    pub open spec fn updates_len(&self) -> int {
        match self {
            DataStream::List(l) => l.updates_model().len() as int,
            DataStream::Tree(t) => t.updates_model().len() as int,
            DataStream::Value(v) => v.updates_model().len() as int,
        }
    }

    /// Tears the stream down: empties it and broadcasts the terminal
    /// `Destroy` change.
    pub fn destroy(&mut self)
        requires
            old(self).wf(),
            old(self).updates_len() < u64::MAX,
        ensures
            final(self).wf(),
            final(self).kind() == old(self).kind(),
            DataStream::destroyed_step(*old(self), *final(self)),
    {
        match self {
            DataStream::List(l) => l.destroy(),
            DataStream::Tree(t) => t.destroy(),
            DataStream::Value(v) => v.destroy(),
        }
    }
}

} // verus!
