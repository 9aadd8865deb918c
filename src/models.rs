//! The plain request and response shapes of the staging service.

use vstd::prelude::*;
use crate::export::split_ids;
use crate::json::views_of;
use crate::export::comma_pieces;

verus! {

/// The reply envelope: whether the operation succeeded, its data, or its
/// error.
pub struct ApiResponse<T> {
    pub success: bool,
    pub data: Option<T>,
    pub error: Option<String>,
}

impl<T> ApiResponse<T> {
    /// A successful reply carrying `data`.
    pub fn ok(data: T) -> (r: ApiResponse<T>)
        ensures
            r.success,
            r.data == Some(data),
            r.error is None,
    {
        ApiResponse { success: true, data: Some(data), error: None }
    }

    /// A failed reply carrying `message`.
    pub fn failure(message: String) -> (r: ApiResponse<T>)
        ensures
            !r.success,
            r.data is None,
            r.error == Some(message),
    {
        ApiResponse { success: false, data: None, error: Some(message) }
    }
}

/// The identifier of an inserted document.
pub struct InsertResponse {
    pub id: String,
}

/// The outcome of a deletion.
pub struct DeleteResponse {
    pub success: bool,
    pub deleted_count: u64,
}

/// The query of a staged-table download: the ids as one comma-separated
/// list, or none for all rows.
pub struct DownloadParams {
    pub ids: Option<String>,
}

impl DownloadParams {
    /// The ids the query names.
    pub fn id_list(&self) -> (r: Vec<String>)
        ensures
            views_of(r@) == match self.ids {
                Some(s) => comma_pieces(s@),
                None => Seq::empty(),
            },
    {
        split_ids(&self.ids)
    }
}

/// The body of a staged-table download: the ids to export, or none for all
/// rows.
pub struct DownloadJsonRequest {
    pub ids: Vec<String>,
}

} // verus!
