use vstd::prelude::*;

verus! {

/// A `Resource` as plain values.
pub struct ResourceView {
    pub kind: usize,
    pub msg: Seq<char>,
}

/// One instance of a system resource: its kind and the message it carries
/// (empty where the kind carries none).
#[derive(Debug)]
pub struct Resource {
    kind: usize,
    msg: String,
}

impl View for Resource {
    type V = ResourceView;

    closed spec fn view(&self) -> ResourceView {
        ResourceView { kind: self.kind, msg: self.msg@ }
    }
}

impl Resource {
    pub fn new(kind: usize, msg: String) -> (res: Resource)
        ensures
            res@ == (ResourceView { kind, msg: msg@ }),
    {
        Resource { kind, msg }
    }

    pub fn get_type(&self) -> (kind: usize)
        ensures
            kind == self@.kind,
    {
        self.kind
    }

    /// Unwraps the message; the instance is used up.
    pub fn get_msg(self) -> (msg: String)
        ensures
            msg@ == self@.msg,
    {
        self.msg
    }
}

} // verus!
