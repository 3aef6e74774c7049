//! The body of a request.

use crate::helpers::bytes::FragmentedBytes;
use vstd::prelude::*;

verus! {

/// The body of a request, by the way in which it was framed.
#[derive(Debug)]
pub enum RequestBody {
    /// The bytes that `Content-Length` announced.
    Whole(FragmentedBytes),
    /// The payloads of the chunks, one fragment for each.
    Chunked(FragmentedBytes),
}

/// A body as a mathematical value.
pub enum RequestBodyView {
    Whole(Seq<u8>),
    Chunked(Seq<u8>),
}

impl View for RequestBody {
    type V = RequestBodyView;

    open spec fn view(&self) -> RequestBodyView {
        match self {
            RequestBody::Whole(rope) => RequestBodyView::Whole(rope.remaining()),
            RequestBody::Chunked(rope) => RequestBodyView::Chunked(rope.remaining()),
        }
    }
}

impl RequestBody {
    /// The rope that holds the body is well formed.
    pub open spec fn wf(&self) -> bool {
        match self {
            RequestBody::Whole(rope) => rope.wf(),
            RequestBody::Chunked(rope) => rope.wf(),
        }
    }

    /// The bytes of the body, copied into one vector.
    pub fn to_vec(&self) -> (r: Vec<u8>)
        requires
            self.wf(),
        ensures
            self@ == RequestBodyView::Whole(r@) || self@ == RequestBodyView::Chunked(r@),
    {
        let rope = match self {
            RequestBody::Whole(rope) => rope,
            RequestBody::Chunked(rope) => rope,
        };
        let len = rope.total_len() - rope.read_pos();
        match rope.copy_buffer_of_len(len) {
            Some(v) => {
                assert(rope.remaining().take(len as int) =~= rope.remaining());
                v
            },
            None => Vec::new(),
        }
    }
}

} // verus!
