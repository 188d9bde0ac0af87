//! The envelope the routing layer wraps results in.

use vstd::prelude::*;

verus! {

#[derive(Debug)]
pub struct ApiResponse<T> {
    pub success: bool,
    pub data: Option<T>,
    pub error: Option<String>,
    pub message: String,
    pub meta: Option<PaginationMeta>,
}

#[derive(Debug, Clone, PartialEq, Eq, Structural)]
pub struct PaginationMeta {
    pub total: i64,
    pub limit: i64,
    pub page: i64,
    pub total_pages: i64,
    pub has_next: bool,
    pub has_previous: bool,
}

impl<T> ApiResponse<T> {
    /// A successful envelope around `data`.
    pub fn success(data: T, message: String) -> (r: ApiResponse<T>)
        ensures
            r.success,
            r.data == Some(data),
            r.error is None,
            r.message == message,
            r.meta is None,
    {
        ApiResponse {
            success: true,
            data: Some(data),
            error: None,
            message,
            meta: None,
        }
    }

    /// A successful envelope that also carries pagination metadata.
    pub fn success_with_meta(data: T, message: String, meta: PaginationMeta) -> (r: ApiResponse<
        T,
    >)
        ensures
            r.success,
            r.data == Some(data),
            r.error is None,
            r.message == message,
            r.meta == Some(meta),
    {
        ApiResponse {
            success: true,
            data: Some(data),
            error: None,
            message,
            meta: Some(meta),
        }
    }
}

} // verus!
