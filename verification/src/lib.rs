//! Poster: the request-building, cURL, templating, import/export and
//! load-test logic of a desktop API client, with its contracts.
use vstd::prelude::*;

pub mod text;
pub mod model;
pub mod numbers;
pub mod template;
pub mod codec;
pub mod curl_import;
pub mod http_plan;
pub mod curl_export;
pub mod load_test;
pub mod json;
pub mod project_io;
pub mod project_json;
pub mod path_screen;
pub mod extract;
pub mod laws;
pub mod template_laws;
pub mod curl_laws;
