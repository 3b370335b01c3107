//! Paths and addresses of the remote file-storage API.

use vstd::prelude::*;

verus! {

pub const GRAPH_BASE_URL: &'static str = "https://graph.microsoft.com/v1.0";

/// The address of `endpoint`: itself when it already starts with `http`, else
/// the endpoint under the API's base address.
pub fn graph_url(endpoint: &str) -> (r: String)
    ensures
        crate::category::occurs_at(endpoint@, "http"@, 0) ==> r@ == endpoint@,
        !crate::category::occurs_at(endpoint@, "http"@, 0) ==> r@ == GRAPH_BASE_URL@ + endpoint@,
{
    let e_len = endpoint.unicode_len();
    let starts = if e_len >= 4 {
        let head = endpoint.substring_char(0, 4).to_owned();
        head == "http".to_owned()
    } else {
        false
    };
    proof {
        reveal_strlit("http");
    }
    if starts {
        endpoint.to_owned()
    } else {
        let mut url = GRAPH_BASE_URL.to_owned();
        url.append(endpoint);
        url
    }
}

/// The listing of a folder's children, or of the drive's root when no folder
/// is given.
pub fn drive_items_endpoint(item_id: Option<&str>) -> (r: String)
    ensures
        item_id matches Some(id) ==> r@ == "/me/drive/items/"@ + id@ + "/children"@,
        item_id is None ==> r@ == "/me/drive/root/children"@,
{
    match item_id {
        Some(id) => {
            let mut e = "/me/drive/items/".to_owned();
            e.append(id);
            e.append("/children");
            e
        },
        None => "/me/drive/root/children".to_owned(),
    }
}

/// A search of the drive for `query`.
pub fn search_endpoint(query: &str) -> (r: String)
    ensures
        r@ == "/me/drive/root/search(q='"@ + query@ + "')"@,
{
    let mut e = "/me/drive/root/search(q='".to_owned();
    e.append(query);
    e.append("')");
    e
}

/// The content of the file with this id.
pub fn file_content_url(item_id: &str) -> (r: String)
    ensures
        r@ == GRAPH_BASE_URL@ + "/me/drive/items/"@ + item_id@ + "/content"@,
{
    let mut e = GRAPH_BASE_URL.to_owned();
    e.append("/me/drive/items/");
    e.append(item_id);
    e.append("/content");
    e
}

} // verus!
