//! Naming an uploaded file.
//!
//! A file is stored under the hash of its content, so the same content is
//! stored once. Reading the upload and writing the file is left to the
//! caller; what stands here is which name the file gets and which uploads
//! are refused.

use crate::crypto::{sha256_hex, sha256_hex_of};
use crate::errors::{ErrorView, ServiceError};
use crate::routes::upload::Upload;
use crate::text::{join3, owned};
use vstd::prelude::*;

verus! {

/// The name under which content with this extension is stored: the digest
/// of the content, a dot, the extension.
pub open spec fn stored_name(content: Seq<u8>, extension: Seq<char>) -> Seq<char> {
    sha256_hex(content) + "."@ + extension
}

/// The complaint about an upload that is refused, `None` for one that is
/// accepted: the content type is looked at first, then the file, then the
/// extension.
pub open spec fn upload_complaint(file: Upload<'_>) -> Option<Seq<char>> {
    if !file.has_content_type {
        Some("Invalid content type"@)
    } else if file.content is None {
        Some("Invalid file path"@)
    } else if file.extension is None {
        Some("Invalid extension"@)
    } else {
        None
    }
}

/// Names the file that an upload is stored as.
///
/// Fails with `BadRequest` when the upload names no content type, was not
/// kept as a file, or has a content type without a file extension.
pub fn upload(file: &Upload<'_>) -> (r: Result<String, ServiceError>)
    ensures
        match r {
            Ok(name) => upload_complaint(*file).is_none() && name@ == stored_name(
                file.content->0@,
                file.extension->0@,
            ),
            Err(e) => upload_complaint(*file) matches Some(text) && e@ == ErrorView::BadRequest(
                text,
            ),
        },
{
    if !file.has_content_type {
        return Err(ServiceError::BadRequest(owned("Invalid content type")));
    }
    let content = match file.content {
        Some(content) => content,
        None => {
            return Err(ServiceError::BadRequest(owned("Invalid file path")));
        },
    };
    let hash = sha256_hex_of(content);
    let extension = match file.extension {
        Some(extension) => extension,
        None => {
            return Err(ServiceError::BadRequest(owned("Invalid extension")));
        },
    };
    Ok(join3(hash.as_str(), ".", extension))
}

/// The URL under which a stored file is served: the upload base, a slash,
/// the name of the file.
pub fn uploaded_url(upload_url: &str, name: &str) -> (url: String)
    ensures
        url@ == upload_url@ + "/"@ + name@,
{
    join3(upload_url, "/", name)
}

} // verus!
