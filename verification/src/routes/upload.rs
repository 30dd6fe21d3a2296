//! The endpoint that takes a file.

use crate::config::Config;
use crate::guards::jwt::Middleware;
use crate::handlers::upload::{stored_name, upload_complaint, uploaded_url};
use crate::routes::UNAUTHORIZED;
use vstd::prelude::*;

verus! {

/// What is known of an upload once it has been received.
#[derive(Debug)]
pub struct Upload<'r> {
    /// The client named a content type.
    pub has_content_type: bool,
    /// The file extension that goes with the content type, where one does.
    pub extension: Option<&'r str>,
    /// The content of the file, where the upload was kept as a file.
    pub content: Option<&'r [u8]>,
}

/// A file that was taken: the name it is stored under and the URL it is
/// served at.
#[derive(Debug, PartialEq, Eq)]
pub struct Stored {
    pub name: String,
    pub url: String,
}

/// Takes an upload and answers with the name that the file is to be stored
/// under, in the upload directory, and with the URL that it is served at. An
/// upload that is refused is answered with 400.
pub fn upload(data: &Upload<'_>, config: &Config, principal: Option<&Middleware>) -> (r: Result<
    Stored,
    u16,
>)
    ensures
        match principal {
            None => r == Err::<Stored, u16>(UNAUTHORIZED),
            Some(_) => match r {
                Ok(stored) => {
                    &&& upload_complaint(*data).is_none()
                    &&& stored.name@ == stored_name(data.content->0@, data.extension->0@)
                    &&& stored.url@ == config.upload_url@ + "/"@ + stored.name@
                },
                Err(code) => upload_complaint(*data) is Some && code == 400,
            },
        },
{
    if principal.is_none() {
        return Err(UNAUTHORIZED);
    }
    match crate::handlers::upload::upload(data) {
        Ok(name) => {
            let url = uploaded_url(config.upload_url.as_str(), name.as_str());
            Ok(Stored { name, url })
        },
        Err(e) => Err(e.status()),
    }
}

} // verus!
