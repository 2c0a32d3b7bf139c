//! Canonicalization of user-interface files: which directory entries are
//! served, under which URL path, and with which media type. The table is
//! built once at startup; the files themselves are opened per request.

use vstd::prelude::*;
use crate::bytestr::sub_eq;

verus! {

/// Media type of a served UI file.
#[derive(Debug, Clone, Copy, PartialEq, Eq)]
pub enum MimeKind {
    Html,
    Icon,
    JavaScript,
    Png,
}

/// A UI file's canonical URL path (as bytes) and media type.
#[derive(Debug, Clone, PartialEq, Eq)]
pub struct UiFileRoute {
    pub key: Vec<u8>,
    pub mime: MimeKind,
}

pub open spec fn suffix_html() -> Seq<u8> {
    seq![46u8, 104u8, 116u8, 109u8, 108u8]  // ".html"
}

pub open spec fn suffix_ico() -> Seq<u8> {
    seq![46u8, 105u8, 99u8, 111u8]  // ".ico"
}

pub open spec fn suffix_js() -> Seq<u8> {
    seq![46u8, 106u8, 115u8]  // ".js"
}

pub open spec fn suffix_map() -> Seq<u8> {
    seq![46u8, 109u8, 97u8, 112u8]  // ".map"
}

pub open spec fn suffix_png() -> Seq<u8> {
    seq![46u8, 112u8, 110u8, 103u8]  // ".png"
}

pub open spec fn name_index_html() -> Seq<u8> {
    // "index.html"
    seq![105u8, 110u8, 100u8, 101u8, 120u8, 46u8, 104u8, 116u8, 109u8, 108u8]
}

/// `s` ends with `pat`.
pub open spec fn ends_with(s: Seq<u8>, pat: Seq<u8>) -> bool {
    s.len() >= pat.len() && sub_eq(s, s.len() - pat.len(), pat)
}

/// The route for a directory entry named `n`: the index page is served
/// at the root path, every other known extension under `/<name>`, and
/// anything else is not served.
pub open spec fn spec_ui_file_entry(n: Seq<u8>) -> Option<(Seq<u8>, MimeKind)> {
    if n == name_index_html() {
        Some((seq![47u8], MimeKind::Html))
    } else if ends_with(n, suffix_html()) {
        Some((seq![47u8] + n, MimeKind::Html))
    } else if ends_with(n, suffix_ico()) {
        Some((seq![47u8] + n, MimeKind::Icon))
    } else if ends_with(n, suffix_js()) {
        Some((seq![47u8] + n, MimeKind::JavaScript))
    } else if ends_with(n, suffix_map()) {
        Some((seq![47u8] + n, MimeKind::JavaScript))
    } else if ends_with(n, suffix_png()) {
        Some((seq![47u8] + n, MimeKind::Png))
    } else {
        None
    }
}

/// Checks whether `name` ends with `pat`.
fn ends_with_exec(name: &[u8], pat: &[u8]) -> (r: bool)
    ensures
        r == ends_with(name@, pat@),
{
    let n = name.len();
    if n < pat.len() {
        return false;
    }
    crate::bytestr::has_at(name, n - pat.len(), pat)
}

/// `/` followed by the file name.
fn slash_key(name: &[u8]) -> (r: Vec<u8>)
    ensures
        r@ == seq![47u8] + name@,
{
    let n = name.len();
    let mut out: Vec<u8> = Vec::new();
    out.push(47);
    let mut i: usize = 0;
    while i < n
        invariant
            0 <= i <= n,
            n == name@.len(),
            out@ =~= (seq![47u8] + name@).take(1 + i as int),
        decreases n - i,
    {
        out.push(name[i]);
        assert(out@ =~= (seq![47u8] + name@).take(1 + (i + 1)));
        i = i + 1;
    }
    assert((seq![47u8] + name@).take(1 + n as int) =~= seq![47u8] + name@);
    out
}

/// Classifies one directory entry by its (UTF-8) file name.
pub fn ui_file_entry(name: &[u8]) -> (r: Option<UiFileRoute>)
    ensures
        match r {
            Some(u) => spec_ui_file_entry(name@) == Some((u.key@, u.mime)),
            None => spec_ui_file_entry(name@) is None,
        },
{
    let index_pat: [u8; 10] = [105, 110, 100, 101, 120, 46, 104, 116, 109, 108];
    let html_pat: [u8; 5] = [46, 104, 116, 109, 108];
    let ico_pat: [u8; 4] = [46, 105, 99, 111];
    let js_pat: [u8; 3] = [46, 106, 115];
    let map_pat: [u8; 4] = [46, 109, 97, 112];
    let png_pat: [u8; 4] = [46, 112, 110, 103];
    proof {
        assert(index_pat@ =~= name_index_html());
        assert(html_pat@ =~= suffix_html());
        assert(ico_pat@ =~= suffix_ico());
        assert(js_pat@ =~= suffix_js());
        assert(map_pat@ =~= suffix_map());
        assert(png_pat@ =~= suffix_png());
    }
    if crate::bytestr::bytes_eq(name, index_pat.as_slice()) {
        let mut key: Vec<u8> = Vec::new();
        key.push(47);
        assert(key@ =~= seq![47u8]);
        return Some(UiFileRoute { key, mime: MimeKind::Html });
    }
    if ends_with_exec(name, html_pat.as_slice()) {
        return Some(UiFileRoute { key: slash_key(name), mime: MimeKind::Html });
    }
    if ends_with_exec(name, ico_pat.as_slice()) {
        return Some(UiFileRoute { key: slash_key(name), mime: MimeKind::Icon });
    }
    if ends_with_exec(name, js_pat.as_slice()) {
        return Some(UiFileRoute { key: slash_key(name), mime: MimeKind::JavaScript });
    }
    if ends_with_exec(name, map_pat.as_slice()) {
        return Some(UiFileRoute { key: slash_key(name), mime: MimeKind::JavaScript });
    }
    if ends_with_exec(name, png_pat.as_slice()) {
        return Some(UiFileRoute { key: slash_key(name), mime: MimeKind::Png });
    }
    None
}

} // verus!
