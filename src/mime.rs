use vstd::prelude::*;

use crate::path::{DOT, SLASH};

verus! {

/// The content types that files are served with.
#[derive(Clone, Copy, Debug, PartialEq, Eq, Structural)]
pub enum ContentType {
    Html,
    Css,
    JavaScript,
    Png,
    Jpeg,
    PlainText,
    Zip,
    OctetStream,
}

impl ContentType {
    /// The header value of this content type.
    pub open spec fn spec_mime(self) -> Seq<char> {
        match self {
            ContentType::Html => "text/html; charset=utf-8"@,
            ContentType::Css => "text/css; charset=utf-8"@,
            ContentType::JavaScript => "text/javascript; charset=utf-8"@,
            ContentType::Png => "image/png"@,
            ContentType::Jpeg => "image/jpeg"@,
            ContentType::PlainText => "text/plain; charset=utf-8"@,
            ContentType::Zip => "application/zip"@,
            ContentType::OctetStream => "application/octet-stream"@,
        }
    }

    /// The header value of this content type.
    pub fn mime_type(&self) -> (r: &'static str)
        ensures
            r@ == self.spec_mime(),
    {
        match self {
            ContentType::Html => "text/html; charset=utf-8",
            ContentType::Css => "text/css; charset=utf-8",
            ContentType::JavaScript => "text/javascript; charset=utf-8",
            ContentType::Png => "image/png",
            ContentType::Jpeg => "image/jpeg",
            ContentType::PlainText => "text/plain; charset=utf-8",
            ContentType::Zip => "application/zip",
            ContentType::OctetStream => "application/octet-stream",
        }
    }
}

/// The index of the last `b` in `s`, or -1 when there is none.
pub open spec fn last_index_of(s: Seq<u8>, b: u8) -> int
    decreases s.len(),
{
    if s.len() == 0 {
        -1
    } else if s.last() == b {
        s.len() - 1
    } else {
        last_index_of(s.drop_last(), b)
    }
}

/// What follows the last slash of `p`.
pub open spec fn file_name(p: Seq<u8>) -> Seq<u8> {
    p.subrange(last_index_of(p, SLASH) + 1, p.len() as int)
}

/// What follows the last dot of the file name of `p`; none when the name
/// has no dot, or only a leading one (`.profile`).
pub open spec fn extension(p: Seq<u8>) -> Option<Seq<u8>> {
    let name = file_name(p);
    let k = last_index_of(name, DOT);
    if k > 0 {
        Some(name.subrange(k + 1, name.len() as int))
    } else {
        None
    }
}

/// The content type of a file by its extension, matched case-sensitively.
pub open spec fn content_type_of_extension(ext: Option<Seq<u8>>) -> ContentType {
    match ext {
        None => ContentType::OctetStream,
        Some(e) => if e == seq![104u8, 116, 109, 108] {
            ContentType::Html
        } else if e == seq![99u8, 115, 115] {
            ContentType::Css
        } else if e == seq![106u8, 115] {
            ContentType::JavaScript
        } else if e == seq![112u8, 110, 103] {
            ContentType::Png
        } else if e == seq![106u8, 112, 103] || e == seq![106u8, 112, 101, 103] {
            ContentType::Jpeg
        } else if e == seq![116u8, 120, 116] {
            ContentType::PlainText
        } else if e == seq![122u8, 105, 112] {
            ContentType::Zip
        } else {
            ContentType::OctetStream
        },
    }
}

/// The content type of the file at path `p`.
pub open spec fn content_type_spec(p: Seq<u8>) -> ContentType {
    content_type_of_extension(extension(p))
}

proof fn lemma_last_index_below(s: Seq<u8>, b: u8, i: int)
    requires
        0 <= i <= s.len(),
        forall|j: int| i <= j < s.len() ==> s[j] != b,
    ensures
        last_index_of(s, b) == last_index_of(s.subrange(0, i), b),
    decreases s.len() - i,
{
    if i < s.len() {
        assert(s.subrange(0, i + 1).drop_last() =~= s.subrange(0, i));
        lemma_last_index_below(s, b, i + 1);
    } else {
        assert(s.subrange(0, i) =~= s);
    }
}

proof fn lemma_last_index_range(s: Seq<u8>, b: u8)
    ensures
        -1 <= last_index_of(s, b) < s.len(),
    decreases s.len(),
{
    if s.len() > 0 {
        lemma_last_index_range(s.drop_last(), b);
    }
}

/// The index of the last `b` in `s`, if any.
pub fn find_last(s: &[u8], b: u8) -> (r: Option<usize>)
    ensures
        match r {
            None => last_index_of(s@, b) == -1,
            Some(k) => last_index_of(s@, b) == k as int,
        },
{
    let mut i: usize = s.len();
    while i > 0
        invariant
            0 <= i <= s@.len(),
            forall|j: int| i <= j < s@.len() ==> s@[j] != b,
        decreases i,
    {
        if s[i - 1] == b {
            proof {
                lemma_last_index_below(s@, b, i as int);
            }
            return Some(i - 1);
        }
        i = i - 1;
    }
    proof {
        lemma_last_index_below(s@, b, 0);
    }
    None
}

/// Whether `a` and `b` hold the same bytes.
pub fn bytes_eq(a: &[u8], b: &[u8]) -> (r: bool)
    ensures
        r == (a@ == b@),
{
    if a.len() != b.len() {
        return false;
    }
    let mut i: usize = 0;
    while i < a.len()
        invariant
            0 <= i <= a@.len(),
            a@.len() == b@.len(),
            forall|j: int| 0 <= j < i ==> a@[j] == b@[j],
        decreases a@.len() - i,
    {
        if a[i] != b[i] {
            return false;
        }
        i = i + 1;
    }
    assert(a@ =~= b@);
    true
}

/// The extension of the file at path `p`, as a range of indices into `p`.
pub fn extension_range(p: &[u8]) -> (r: Option<(usize, usize)>)
    ensures
        match r {
            None => extension(p@) is None,
            Some((lo, hi)) => lo <= hi <= p@.len() && extension(p@) == Some(
                p@.subrange(lo as int, hi as int),
            ),
        },
{
    proof {
        lemma_last_index_range(p@, SLASH);
    }
    let n: usize = p.len();
    let start: usize = match find_last(p, SLASH) {
        None => 0,
        Some(k) => {
            assert(k < n);
            k + 1
        },
    };
    let ghost name = file_name(p@);
    let name_bytes = vstd::slice::slice_subrange(p, start, p.len());
    assert(name_bytes@ == name);
    match find_last(name_bytes, DOT) {
        None => None,
        Some(k) => {
            proof {
                lemma_last_index_range(name, DOT);
            }
            if k == 0 {
                None
            } else {
                assert(name.subrange(k + 1, name.len() as int) =~= p@.subrange(
                    start + k + 1,
                    p@.len() as int,
                ));
                Some((start + k + 1, p.len()))
            }
        }
    }
}

/// The content type that the file at path `p` is served with, by the
/// extension of its name.
pub fn content_type_for_path(p: &[u8]) -> (r: ContentType)
    ensures
        r == content_type_spec(p@),
{
    match extension_range(p) {
        None => ContentType::OctetStream,
        Some((lo, hi)) => {
            let e = vstd::slice::slice_subrange(p, lo, hi);
            let html: [u8; 4] = [104, 116, 109, 108];
            let css: [u8; 3] = [99, 115, 115];
            let js: [u8; 2] = [106, 115];
            let png: [u8; 3] = [112, 110, 103];
            let jpg: [u8; 3] = [106, 112, 103];
            let jpeg: [u8; 4] = [106, 112, 101, 103];
            let txt: [u8; 3] = [116, 120, 116];
            let zip: [u8; 3] = [122, 105, 112];
            assert(html@ =~= seq![104u8, 116, 109, 108]);
            assert(css@ =~= seq![99u8, 115, 115]);
            assert(js@ =~= seq![106u8, 115]);
            assert(png@ =~= seq![112u8, 110, 103]);
            assert(jpg@ =~= seq![106u8, 112, 103]);
            assert(jpeg@ =~= seq![106u8, 112, 101, 103]);
            assert(txt@ =~= seq![116u8, 120, 116]);
            assert(zip@ =~= seq![122u8, 105, 112]);
            if bytes_eq(e, html.as_slice()) {
                ContentType::Html
            } else if bytes_eq(e, css.as_slice()) {
                ContentType::Css
            } else if bytes_eq(e, js.as_slice()) {
                ContentType::JavaScript
            } else if bytes_eq(e, png.as_slice()) {
                ContentType::Png
            } else if bytes_eq(e, jpg.as_slice()) || bytes_eq(e, jpeg.as_slice()) {
                ContentType::Jpeg
            } else if bytes_eq(e, txt.as_slice()) {
                ContentType::PlainText
            } else if bytes_eq(e, zip.as_slice()) {
                ContentType::Zip
            } else {
                ContentType::OctetStream
            }
        },
    }
}

} // verus!
