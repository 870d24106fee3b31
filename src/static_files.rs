use vstd::prelude::*;
use vstd::string::StringExecFns;

use crate::mime::{content_type_for_path, content_type_spec, ContentType};
use crate::response::{
    create_error_response, is_error_response, Body, Response, FORBIDDEN, NOT_FOUND, OK,
};

verus! {

/// What the filesystem showed at a resolved path.
#[derive(Clone, Debug)]
pub enum StaticOutcome {
    /// Nothing is there.
    Missing,
    /// A file, read whole.
    File(Vec<u8>),
    /// A file or directory that could not be read.
    Unreadable,
    /// A directory, with the names of its entries.
    Directory(Vec<String>),
}

/// The list items for `names`, one link per name.
pub open spec fn listing_items(names: Seq<Seq<char>>) -> Seq<char>
    decreases names.len(),
{
    if names.len() == 0 {
        Seq::empty()
    } else {
        listing_items(names.drop_last()) + "<li><a href=\""@ + names.last() + "\">"@
            + names.last() + "</a></li>"@
    }
}

/// The HTML page that lists a directory: a link to the parent, then one
/// link per entry, in the order given.
pub open spec fn listing_html(names: Seq<Seq<char>>) -> Seq<char> {
    "<html><h1>Directory listing</h1><ul>"@ + "<li><a href=\"../\">..</a></li>"@
        + listing_items(names) + "</ul></html>"@
}

/// The text held by each string of `v`.
pub open spec fn strings_view(v: Seq<String>) -> Seq<Seq<char>> {
    v.map_values(|s: String| s@)
}

/// The HTML page that lists a directory whose entries are `names`.
pub fn directory_listing_html(names: &Vec<String>) -> (r: String)
    ensures
        r@ == listing_html(strings_view(names@)),
{
    let mut items = String::new();
    let mut i: usize = 0;
    assert(strings_view(names@).subrange(0, 0) =~= Seq::<Seq<char>>::empty());
    while i < names.len()
        invariant
            0 <= i <= names@.len(),
            items@ == listing_items(strings_view(names@).subrange(0, i as int)),
        decreases names@.len() - i,
    {
        let name = names[i].as_str();
        items.append("<li><a href=\"");
        items.append(name);
        items.append("\">");
        items.append(name);
        items.append("</a></li>");
        proof {
            let s = strings_view(names@).subrange(0, i + 1);
            assert(s.drop_last() =~= strings_view(names@).subrange(0, i as int));
            assert(s.last() == names@[i as int]@);
        }
        i = i + 1;
    }
    assert(strings_view(names@).subrange(0, i as int) =~= strings_view(names@));
    let mut page = String::new();
    page.append("<html><h1>Directory listing</h1><ul>");
    page.append("<li><a href=\"../\">..</a></li>");
    page.append(items.as_str());
    page.append("</ul></html>");
    page
}

/// The listing of a directory whose entries are `names`: 200, as HTML.
pub fn list_directory(names: &Vec<String>) -> (r: Response)
    ensures
        r.status == OK,
        r.content_type == Some(ContentType::Html),
        r.body matches Body::Text(t) && t@ == listing_html(strings_view(names@)),
{
    let page = directory_listing_html(names);
    Response { status: OK, content_type: Some(ContentType::Html), body: Body::Text(page) }
}

/// A file at `path` that was read whole: 200, typed by its extension, with
/// its bytes as they are.
pub fn serve_file(path: &[u8], contents: Vec<u8>) -> (r: Response)
    ensures
        r.status == OK,
        r.content_type == Some(content_type_spec(path@)),
        r.body matches Body::Bytes(b) && b@ == contents@,
{
    let ct = content_type_for_path(path);
    Response { status: OK, content_type: Some(ct), body: Body::Bytes(contents) }
}

/// The response to a GET whose path resolved to `path`, given what the
/// filesystem showed there: 404 when nothing is there, 403 when it could
/// not be read, the file or the directory listing otherwise.
pub fn static_response(path: &[u8], outcome: StaticOutcome) -> (r: Response)
    ensures
        match outcome {
            StaticOutcome::Missing => is_error_response(r, NOT_FOUND),
            StaticOutcome::Unreadable => is_error_response(r, FORBIDDEN),
            StaticOutcome::File(contents) => {
                &&& r.status == OK
                &&& r.content_type == Some(content_type_spec(path@))
                &&& r.body matches Body::Bytes(b) && b@ == contents@
            },
            StaticOutcome::Directory(names) => {
                &&& r.status == OK
                &&& r.content_type == Some(ContentType::Html)
                &&& r.body matches Body::Text(t) && t@ == listing_html(strings_view(names@))
            },
        },
{
    match outcome {
        StaticOutcome::Missing => create_error_response(NOT_FOUND),
        StaticOutcome::Unreadable => create_error_response(FORBIDDEN),
        StaticOutcome::File(contents) => serve_file(path, contents),
        StaticOutcome::Directory(names) => list_directory(&names),
    }
}

} // verus!
