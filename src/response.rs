use vstd::prelude::*;
use vstd::string::StringSliceAdditionalSpecFns;
use vstd::utf8::encode_utf8;

verus! {

/// The kind of payload a response carries.
#[derive(Clone, Copy, Debug, PartialEq, Eq, Structural)]
pub enum ContentType {
    Text,
    Pdf,
}

/// A response handed back to the transport layer: a status code, a content
/// type and the raw body.
pub struct Response {
    pub status: u16,
    pub content_type: ContentType,
    pub body: Vec<u8>,
}

/// A plain-text response whose body holds the bytes of `message`.
pub fn text_response(status: u16, message: &str) -> (r: Response)
    ensures
        r.status == status,
        r.content_type == ContentType::Text,
        r.body@ == message.spec_bytes(),
{
    Response { status, content_type: ContentType::Text, body: vstd::slice::slice_to_vec(message.as_bytes()) }
}

/// Status codes that the request handling returns.
pub const OK: u16 = 200;
pub const BAD_REQUEST: u16 = 400;
pub const NOT_FOUND: u16 = 404;
pub const NOT_ACCEPTABLE: u16 = 406;
pub const INTERNAL_SERVER_ERROR: u16 = 500;

/// The work that a valid request leaves to the host: read the template at
/// `path`, bind `post` as JSON under the key `post`, and compile.
pub struct Load {
    pub path: String,
    pub post: String,
}

/// `b` holds two dots in a row.
pub open spec fn has_parent_step(b: Seq<u8>) -> bool {
    exists|i: int| 0 <= i && i + 1 < b.len() && #[trigger] b[i] == 46u8 && b[i + 1] == 46u8
}

/// Whether `name` holds `..`.
pub fn traverses(name: &str) -> (r: bool)
    ensures
        r == has_parent_step(name.spec_bytes()),
{
    let b = name.as_bytes();
    let mut i: usize = 0;
    while i < b.len() && b.len() - i > 1
        invariant
            i <= b@.len(),
            b@ == name.spec_bytes(),
            forall|j: int| 0 <= j < i && j + 1 < b@.len() ==> !(#[trigger] b@[j] == 46u8 && b@[j + 1] == 46u8),
        decreases b@.len() - i,
    {
        if b[i] == 46u8 && b[i + 1] == 46u8 {
            return true;
        }
        i = i + 1;
    }
    false
}

/// The outcome for a request naming `template`: a bad request without a
/// name, not acceptable for a name that holds `..`, else the load of
/// `templates/<name>.typ` with `post` as its JSON payload.
pub open spec fn plan_ok(template: Option<String>, post: Seq<char>, r: Result<Load, Response>) -> bool {
    match template {
        None => r is Err && r->Err_0.status == BAD_REQUEST && r->Err_0.content_type == ContentType::Text
            && r->Err_0.body@ == encode_utf8("Must specify a template."@),
        Some(name) => if has_parent_step(encode_utf8(name@)) {
            r is Err && r->Err_0.status == NOT_ACCEPTABLE && r->Err_0.content_type == ContentType::Text
                && r->Err_0.body@ == encode_utf8("Template name cannot traverse the file tree."@)
        } else {
            r is Ok && r->Ok_0.path@ == "templates/"@ + name@ + ".typ"@ && r->Ok_0.post@ == post
        },
    }
}

fn plan(template: Option<String>, post: String) -> (r: Result<Load, Response>)
    ensures
        plan_ok(template, post@, r),
{
    match template {
        None => Err(text_response(BAD_REQUEST, "Must specify a template.")),
        Some(name) => {
            if traverses(name.as_str()) {
                Err(text_response(NOT_ACCEPTABLE, "Template name cannot traverse the file tree."))
            } else {
                let mut path = String::from_str("templates/");
                path.append(name.as_str());
                path.append(".typ");
                Ok(Load { path, post })
            }
        },
    }
}

/// A request that posts `post_body` for `template`.
pub fn hello_post(template: Option<String>, post_body: String) -> (r: Result<Load, Response>)
    ensures
        plan_ok(template, post_body@, r),
{
    plan(template, post_body)
}

/// A request without a payload for `template`: the payload is the empty object.
pub fn hello_get(template: Option<String>) -> (r: Result<Load, Response>)
    ensures
        plan_ok(template, "{}"@, r),
{
    plan(template, String::from_str("{}"))
}

/// The response for a template that could not be opened.
pub fn missing_template() -> (r: Response)
    ensures
        r.status == NOT_FOUND,
        r.content_type == ContentType::Text,
        r.body@ == encode_utf8("Could not locate template."@),
{
    text_response(NOT_FOUND, "Could not locate template.")
}

/// The response for a template that could not be read.
pub fn unreadable_template() -> (r: Response)
    ensures
        r.status == NOT_FOUND,
        r.content_type == ContentType::Text,
        r.body@ == encode_utf8("Could not read template."@),
{
    text_response(NOT_FOUND, "Could not read template.")
}

/// The response for the outcome of a compilation: the PDF bytes, or the
/// error message as text.
pub fn compile_response(outcome: Result<Vec<u8>, String>) -> (r: Response)
    ensures
        outcome is Ok ==> r.status == OK && r.content_type == ContentType::Pdf && r.body == outcome->Ok_0,
        outcome is Err ==> r.status == INTERNAL_SERVER_ERROR && r.content_type == ContentType::Text
            && r.body@ == encode_utf8(outcome->Err_0@),
{
    match outcome {
        Ok(pdf) => Response { status: OK, content_type: ContentType::Pdf, body: pdf },
        Err(message) => text_response(INTERNAL_SERVER_ERROR, message.as_str()),
    }
}

} // verus!
