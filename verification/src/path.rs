//! The request-path router: classifies a path into a closed set of route
//! variants. Total over all inputs — malformed shapes map to `NotFound`
//! (inside the API prefix) or `Static` (outside it), never to an error.

use vstd::prelude::*;
use crate::bytestr::{hex_digit_val, is_lower_hex_digit, sub_eq, has_at};
use vstd::string::StringSliceAdditionalSpecFns;

verus! {

/// One of a camera's independently recorded feeds.
#[derive(Debug, Clone, Copy, PartialEq, Eq)]
pub enum StreamKind {
    Main,
    Sub,
}

/// A classified request path. The camera identifier is the 128-bit value
/// of its textual UUID; an init-segment route carries the decoded
/// 20-byte content hash.
#[derive(Debug, Clone, PartialEq, Eq)]
pub enum Route {
    TopLevel,
    InitSegment(Vec<u8>),
    Camera(u128),
    StreamRecordings(u128, StreamKind),
    StreamViewMp4(u128, StreamKind),
    StreamViewMp4Segment(u128, StreamKind),
    Static,
    NotFound,
}

/// Mathematical shape of a [`Route`].
pub enum RouteSpec {
    TopLevel,
    InitSegment(Seq<u8>),
    Camera(u128),
    StreamRecordings(u128, StreamKind),
    StreamViewMp4(u128, StreamKind),
    StreamViewMp4Segment(u128, StreamKind),
    Static,
    NotFound,
}

impl View for Route {
    type V = RouteSpec;

    open spec fn view(&self) -> RouteSpec {
        match self {
            Route::TopLevel => RouteSpec::TopLevel,
            Route::InitSegment(h) => RouteSpec::InitSegment(h@),
            Route::Camera(u) => RouteSpec::Camera(*u),
            Route::StreamRecordings(u, k) => RouteSpec::StreamRecordings(*u, *k),
            Route::StreamViewMp4(u, k) => RouteSpec::StreamViewMp4(*u, *k),
            Route::StreamViewMp4Segment(u, k) => RouteSpec::StreamViewMp4Segment(*u, *k),
            Route::Static => RouteSpec::Static,
            Route::NotFound => RouteSpec::NotFound,
        }
    }
}

/// The 128-bit value denoted by a textual UUID, or `None` when the bytes
/// are not one of the accepted UUID notations.
pub uninterp spec fn spec_uuid_parse(b: Seq<u8>) -> Option<u128>;

/// Relies on `uuid::Uuid::try_parse_ascii` (with `Uuid::as_u128`): which
/// textual notations are accepted and the value they denote depend on
/// the input bytes alone.
#[verifier::external_body]
fn uuid_from_ascii(b: &[u8]) -> (r: Option<u128>)
    ensures
        r == spec_uuid_parse(b@),
{
    match uuid::Uuid::try_parse_ascii(b) {
        Ok(u) => Some(u.as_u128()),
        Err(_) => None,
    }
}

// Byte strings of the fixed tokens of the path grammar.
pub open spec fn api_prefix() -> Seq<u8> {
    seq![47u8, 97u8, 112u8, 105u8, 47u8]  // "/api/"
}

pub open spec fn init_prefix() -> Seq<u8> {
    seq![47u8, 97u8, 112u8, 105u8, 47u8, 105u8, 110u8, 105u8, 116u8, 47u8]  // "/api/init/"
}

pub open spec fn cameras_prefix() -> Seq<u8> {
    // "/api/cameras/"
    seq![47u8, 97u8, 112u8, 105u8, 47u8, 99u8, 97u8, 109u8, 101u8, 114u8, 97u8, 115u8, 47u8]
}

pub open spec fn mp4_suffix() -> Seq<u8> {
    seq![46u8, 109u8, 112u8, 52u8]  // ".mp4"
}

pub open spec fn kw_main() -> Seq<u8> {
    seq![109u8, 97u8, 105u8, 110u8]  // "main"
}

pub open spec fn kw_sub() -> Seq<u8> {
    seq![115u8, 117u8, 98u8]  // "sub"
}

pub open spec fn tail_recordings() -> Seq<u8> {
    // "/recordings"
    seq![47u8, 114u8, 101u8, 99u8, 111u8, 114u8, 100u8, 105u8, 110u8, 103u8, 115u8]
}

pub open spec fn tail_view_mp4() -> Seq<u8> {
    seq![47u8, 118u8, 105u8, 101u8, 119u8, 46u8, 109u8, 112u8, 52u8]  // "/view.mp4"
}

pub open spec fn tail_view_m4s() -> Seq<u8> {
    seq![47u8, 118u8, 105u8, 101u8, 119u8, 46u8, 109u8, 52u8, 115u8]  // "/view.m4s"
}

/// First index at or after `from` holding byte `t`, or `-1`.
pub open spec fn find_byte(s: Seq<u8>, from: int, t: u8) -> int
    decreases s.len() - from,
{
    if from < 0 || from >= s.len() {
        -1
    } else if s[from] == t {
        from
    } else {
        find_byte(s, from + 1, t)
    }
}

/// Scans `b` from `from` for the byte `t`.
pub fn find_byte_at(b: &[u8], from: usize, t: u8) -> (r: Option<usize>)
    requires
        from <= b@.len(),
    ensures
        match r {
            Some(j) => from <= j < b@.len() && j == find_byte(b@, from as int, t),
            None => find_byte(b@, from as int, t) == -1,
        },
{
    let n = b.len();
    let mut j = from;
    while j < n && b[j] != t
        invariant
            from <= j <= n,
            n == b@.len(),
            find_byte(b@, from as int, t) == find_byte(b@, j as int, t),
        decreases n - j,
    {
        assert(find_byte(b@, j as int, t) == find_byte(b@, j + 1, t));
        j = j + 1;
    }
    if j < n {
        Some(j)
    } else {
        None
    }
}

/// Every byte of `s` is a lowercase hex digit.
pub open spec fn all_lower_hex(s: Seq<u8>) -> bool {
    forall|i: int| 0 <= i < s.len() ==> is_lower_hex_digit(#[trigger] s[i])
}

/// The bytes written by the hex digit string `s` (two digits per byte).
pub open spec fn spec_dehex(s: Seq<u8>) -> Seq<u8> {
    Seq::new((s.len() / 2) as nat, |i: int| (hex_digit_val(s[2 * i]) * 16 + hex_digit_val(s[2 * i + 1])) as u8)
}

/// A lowercase hex digit, and its value.
fn hex_val(c: u8) -> (r: Option<u8>)
    ensures
        match r {
            Some(v) => is_lower_hex_digit(c) && v == hex_digit_val(c) && v < 16,
            None => !is_lower_hex_digit(c),
        },
{
    if 48 <= c && c <= 57 {
        Some(c - 48)
    } else if 97 <= c && c <= 102 {
        Some(c - 87)
    } else {
        None
    }
}

/// Decodes the 40 hex digits at `b[from..from + 40]` into 20 bytes.
fn dehex40(b: &[u8], from: usize) -> (r: Option<Vec<u8>>)
    requires
        from + 40 <= b@.len(),
    ensures
        match r {
            Some(v) => all_lower_hex(b@.subrange(from as int, from + 40)) && v@ == spec_dehex(
                b@.subrange(from as int, from + 40),
            ),
            None => !all_lower_hex(b@.subrange(from as int, from + 40)),
        },
{
    let ghost sub = b@.subrange(from as int, from + 40);
    let n = b.len();
    let mut out: Vec<u8> = Vec::new();
    let mut i: usize = 0;
    while i < 20
        invariant
            0 <= i <= 20,
            n == b@.len(),
            from + 40 <= n,
            sub == b@.subrange(from as int, from + 40),
            out@ =~= spec_dehex(sub).take(i as int),
            forall|k: int| 0 <= k < 2 * i ==> is_lower_hex_digit(#[trigger] sub[k]),
        decreases 20 - i,
    {
        assert(sub[2 * i as int] == b@[from + 2 * i]);
        assert(sub[2 * i as int + 1] == b@[from + 2 * i + 1]);
        let hi = match hex_val(b[from + 2 * i]) {
            Some(v) => v,
            None => {
                return None;
            },
        };
        let lo = match hex_val(b[from + 2 * i + 1]) {
            Some(v) => v,
            None => {
                return None;
            },
        };
        out.push(hi * 16 + lo);
        assert(out@ =~= spec_dehex(sub).take(i + 1));
        i = i + 1;
    }
    assert(spec_dehex(sub).take(20) =~= spec_dehex(sub));
    Some(out)
}

/// The stream kind named by `s`, if any.
pub open spec fn spec_stream_kind(s: Seq<u8>) -> Option<StreamKind> {
    if s == kw_main() {
        Some(StreamKind::Main)
    } else if s == kw_sub() {
        Some(StreamKind::Sub)
    } else {
        None
    }
}

impl StreamKind {
    /// Parses a stream-kind path token.
    pub fn parse(b: &[u8]) -> (r: Option<StreamKind>)
        ensures
            r == spec_stream_kind(b@),
    {
        let main_pat: [u8; 4] = [109, 97, 105, 110];
        let sub_pat: [u8; 3] = [115, 117, 98];
        assert(main_pat@ =~= kw_main());
        assert(sub_pat@ =~= kw_sub());
        proof {
            assert(b@ =~= b@.subrange(0, b@.len() as int));
        }
        if b.len() == 4 && has_at(b, 0, main_pat.as_slice()) {
            assert(b@ =~= kw_main());
            Some(StreamKind::Main)
        } else if b.len() == 3 && has_at(b, 0, sub_pat.as_slice()) {
            assert(b@ =~= kw_sub());
            Some(StreamKind::Sub)
        } else {
            proof {
                if b@.len() == kw_main().len() {
                    assert(b@ == b@.subrange(0, 4));
                }
                if b@.len() == kw_sub().len() {
                    assert(b@ == b@.subrange(0, 3));
                }
            }
            None
        }
    }
}

/// Classification of `p`:
/// - anything outside the `/api/` prefix is `Static`;
/// - `/api/` exactly is the top level;
/// - `/api/init/<40 lowercase hex>.mp4` is an init segment;
/// - `/api/cameras/<uuid>/` is a camera,
///   `/api/cameras/<uuid>/<kind>/recordings|view.mp4|view.m4s` a stream
///   route;
/// - every other shape under the prefix is `NotFound`.
pub open spec fn spec_decode_path(p: Seq<u8>) -> RouteSpec {
    if !sub_eq(p, 0, api_prefix()) {
        RouteSpec::Static
    } else if p.len() == 5 {
        RouteSpec::TopLevel
    } else if sub_eq(p, 0, init_prefix()) {
        if p.len() != 54 || !sub_eq(p, 50, mp4_suffix()) {
            RouteSpec::NotFound
        } else if all_lower_hex(p.subrange(10, 50)) {
            RouteSpec::InitSegment(spec_dehex(p.subrange(10, 50)))
        } else {
            RouteSpec::NotFound
        }
    } else if !sub_eq(p, 0, cameras_prefix()) {
        RouteSpec::NotFound
    } else {
        let sl = find_byte(p, 13, 47);
        if sl < 0 {
            RouteSpec::NotFound
        } else {
            match spec_uuid_parse(p.subrange(13, sl)) {
                None => RouteSpec::NotFound,
                Some(u) => if sl + 1 == p.len() {
                    RouteSpec::Camera(u)
                } else {
                    let sl2 = find_byte(p, sl + 1, 47);
                    if sl2 < 0 {
                        RouteSpec::NotFound
                    } else {
                        match spec_stream_kind(p.subrange(sl + 1, sl2)) {
                            None => RouteSpec::NotFound,
                            Some(k) => if p.len() == sl2 + 11 && sub_eq(p, sl2, tail_recordings()) {
                                RouteSpec::StreamRecordings(u, k)
                            } else if p.len() == sl2 + 9 && sub_eq(p, sl2, tail_view_mp4()) {
                                RouteSpec::StreamViewMp4(u, k)
                            } else if p.len() == sl2 + 9 && sub_eq(p, sl2, tail_view_m4s()) {
                                RouteSpec::StreamViewMp4Segment(u, k)
                            } else {
                                RouteSpec::NotFound
                            },
                        }
                    }
                },
            }
        }
    }
}

/// Classifies a request path. Total: never fails.
pub fn decode_path(path: &str) -> (r: Route)
    ensures
        r@ == spec_decode_path(path.spec_bytes()),
{
    let b = path.as_bytes();
    let ghost s = b@;
    let n = b.len();
    let api: [u8; 5] = [47, 97, 112, 105, 47];
    assert(api@ =~= api_prefix());
    if !has_at(b, 0, api.as_slice()) {
        return Route::Static;
    }
    if n == 5 {
        return Route::TopLevel;
    }
    let init: [u8; 10] = [47, 97, 112, 105, 47, 105, 110, 105, 116, 47];
    assert(init@ =~= init_prefix());
    if has_at(b, 0, init.as_slice()) {
        let mp4: [u8; 4] = [46, 109, 112, 52];
        assert(mp4@ =~= mp4_suffix());
        if n != 54 || !has_at(b, 50, mp4.as_slice()) {
            return Route::NotFound;
        }
        return match dehex40(b, 10) {
            Some(hash) => Route::InitSegment(hash),
            None => Route::NotFound,
        };
    }
    let cameras: [u8; 13] = [47, 97, 112, 105, 47, 99, 97, 109, 101, 114, 97, 115, 47];
    assert(cameras@ =~= cameras_prefix());
    if !has_at(b, 0, cameras.as_slice()) {
        return Route::NotFound;
    }
    let sl = match find_byte_at(b, 13, 47) {
        Some(j) => j,
        None => {
            return Route::NotFound;
        },
    };
    let uuid_part: &[u8] = &b[13..sl];
    assert(uuid_part@ == s.subrange(13, sl as int));
    let u = match uuid_from_ascii(uuid_part) {
        Some(u) => u,
        None => {
            return Route::NotFound;
        },
    };
    if sl + 1 == n {
        return Route::Camera(u);
    }
    let sl2 = match find_byte_at(b, sl + 1, 47) {
        Some(j) => j,
        None => {
            return Route::NotFound;
        },
    };
    let kind_part: &[u8] = &b[sl + 1..sl2];
    assert(kind_part@ == s.subrange(sl + 1, sl2 as int));
    let kind = match StreamKind::parse(kind_part) {
        Some(k) => k,
        None => {
            return Route::NotFound;
        },
    };
    let recs: [u8; 11] = [47, 114, 101, 99, 111, 114, 100, 105, 110, 103, 115];
    assert(recs@ =~= tail_recordings());
    if n - sl2 == 11 && has_at(b, sl2, recs.as_slice()) {
        return Route::StreamRecordings(u, kind);
    }
    let vmp4: [u8; 9] = [47, 118, 105, 101, 119, 46, 109, 112, 52];
    assert(vmp4@ =~= tail_view_mp4());
    if n - sl2 == 9 && has_at(b, sl2, vmp4.as_slice()) {
        return Route::StreamViewMp4(u, kind);
    }
    let vm4s: [u8; 9] = [47, 118, 105, 101, 119, 46, 109, 52, 115];
    assert(vm4s@ =~= tail_view_m4s());
    if n - sl2 == 9 && has_at(b, sl2, vm4s.as_slice()) {
        return Route::StreamViewMp4Segment(u, kind);
    }
    Route::NotFound
}

} // verus!
