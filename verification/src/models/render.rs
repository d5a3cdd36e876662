//! Handler replies: a tagged response carried back to the client.
use crate::exceptions::Exception;
use vstd::prelude::*;
use vstd::utf8::encode_utf8;

verus! {

/// A handler's reply. Text and JSON replies carry their text; a file
/// reply names a path and is not supported by the byte renderer.
pub enum BaseResponse {
    FileResponse(String),
    TextResponse(String),
    JsonResponse(String),
}

/// The bytes a reply renders to, when it renders at all.
pub open spec fn spec_response_bytes(r: &BaseResponse) -> Option<Seq<u8>> {
    match r {
        BaseResponse::FileResponse(_) => None,
        BaseResponse::TextResponse(t) => Some(encode_utf8(t@)),
        BaseResponse::JsonResponse(j) => Some(encode_utf8(j@)),
    }
}

impl BaseResponse {
    /// Render the reply to its UTF-8 bytes; a file reply is refused.
    pub fn as_bytes(&self) -> (r: Result<Vec<u8>, Exception>)
        ensures
            r is Ok <==> spec_response_bytes(self) is Some,
            r matches Ok(v) ==> Some(v@) == spec_response_bytes(self),
            r matches Err(e) ==> e matches Exception::UnsupportedMethod,
    {
        match self {
            BaseResponse::FileResponse(_) => Err(Exception::UnsupportedMethod),
            BaseResponse::TextResponse(text) => Ok(text.as_str().as_bytes_vec()),
            BaseResponse::JsonResponse(data) => Ok(data.as_str().as_bytes_vec()),
        }
    }
}

} // verus!
