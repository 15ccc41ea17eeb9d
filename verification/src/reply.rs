use vstd::prelude::*;

use crate::ids::eq_range;

verus! {

// A reply payload is one externally tagged JSON object `{"<Tag>":<body>}`:
// the tag names the reply variant, the body is that variant's contents,
// carried verbatim. This layer only classifies the variant; it never
// interprets the body. The one variant it knows by name is `JsError`, the
// peer's way of reporting that it failed to execute a command.
/// Bytes allowed in a variant tag: ASCII letters and digits.
pub open spec fn is_tag_byte(c: u8) -> bool {
    (65 <= c && c <= 90) || (97 <= c && c <= 122) || (48 <= c && c <= 57)
}

/// A well-formed variant tag: nonempty, letters and digits only.
pub open spec fn wf_tag(t: Seq<u8>) -> bool {
    t.len() > 0 && forall|i: int| 0 <= i < t.len() ==> is_tag_byte(t[i])
}

/// The one exact byte form of an externally tagged payload `{"<t>":<b>}`.
pub open spec fn spec_tagged(tag: Seq<u8>, body: Seq<u8>) -> Seq<u8> {
    seq![123u8, 34] + tag + seq![34u8, 58] + body + seq![125u8]
}

/// The tag of the peer's failure reply: `JsError`.
pub open spec fn js_error_tag() -> Seq<u8> {
    seq![74u8, 115, 69, 114, 114, 111, 114]
}

/// A failure visible to the caller of one session call.
#[derive(Debug)]
pub enum CallError {
    /// The peer executed the command and reported a failure; its reply body
    /// is carried verbatim.
    Remote { message: Vec<u8> },
    /// The reply payload was not of the shape the call expected.
    UnexpectedShape,
    /// The connection serving this session closed or failed before a reply
    /// arrived.
    ConnectionClosed,
}

/// A well-formed tagged payload names its tag and body uniquely.
pub proof fn lemma_tagged_injective(t1: Seq<u8>, b1: Seq<u8>, t2: Seq<u8>, b2: Seq<u8>)
    requires
        wf_tag(t1),
        wf_tag(t2),
        spec_tagged(t1, b1) == spec_tagged(t2, b2),
    ensures
        t1 == t2,
        b1 == b2,
{
    let s = spec_tagged(t1, b1);
    assert(s.len() == 5 + t1.len() + b1.len());
    assert(s.len() == 5 + t2.len() + b2.len());
    assert(forall|i: int| 0 <= i < t1.len() ==> s[2 + i] == t1[i]);
    assert(forall|i: int| 0 <= i < t2.len() ==> s[2 + i] == t2[i]);
    assert(s[2 + t1.len() as int] == 34);
    assert(s[2 + t2.len() as int] == 34);
    if t1.len() < t2.len() {
        assert(is_tag_byte(t2[t1.len() as int]));
        assert(s[2 + t1.len() as int] == t2[t1.len() as int]);
        assert(false);
    }
    if t2.len() < t1.len() {
        assert(is_tag_byte(t1[t2.len() as int]));
        assert(s[2 + t2.len() as int] == t1[t2.len() as int]);
        assert(false);
    }
    assert(t1 =~= t2);
    assert(b1 =~= b2) by {
        assert(forall|i: int| 0 <= i < b1.len() ==> s[4 + t1.len() as int + i] == b1[i]);
        assert(forall|i: int| 0 <= i < b2.len() ==> s[4 + t2.len() as int + i] == b2[i]);
    }
}

/// Splits a tagged reply payload into its tag and its body. Succeeds exactly
/// on the byte strings of the form `{"<t>":<b>}` with a well-formed tag, and
/// then recovers that tag and body.
pub fn classify_reply(payload: &Vec<u8>) -> (r: Option<(Vec<u8>, Vec<u8>)>)
    ensures
        match r {
            Some(d) => wf_tag(d.0@) && payload@ == spec_tagged(d.0@, d.1@),
            None => forall|t: Seq<u8>, b: Seq<u8>|
                wf_tag(t) ==> payload@ != spec_tagged(t, b),
        },
{
    let flen = payload.len();
    if flen < 6 {
        assert forall|t: Seq<u8>, b: Seq<u8>| wf_tag(t) implies payload@ != spec_tagged(t, b) by {
            assert(spec_tagged(t, b).len() == 5 + t.len() + b.len());
        }
        return None;
    }
    if payload[0] != 123 || payload[1] != 34 {
        assert forall|t: Seq<u8>, b: Seq<u8>| wf_tag(t) implies payload@ != spec_tagged(t, b) by {
            if payload@ == spec_tagged(t, b) {
                assert(payload@[0] == 123 && payload@[1] == 34);
            }
        }
        return None;
    }
    // scan the maximal run of tag bytes starting at position 2
    let mut i: usize = 2;
    while i < flen && ((65 <= payload[i] && payload[i] <= 90) || (97 <= payload[i] && payload[i]
        <= 122) || (48 <= payload[i] && payload[i] <= 57))
        invariant
            flen == payload@.len(),
            2 <= i <= flen,
            forall|j: int| 2 <= j < i ==> is_tag_byte(payload@[j]),
        decreases flen - i,
    {
        i = i + 1;
    }
    // i is the first position at or after 2 holding no tag byte
    if i == flen || i == 2 || payload[i] != 34 {
        assert forall|t: Seq<u8>, b: Seq<u8>| wf_tag(t) implies payload@ != spec_tagged(t, b) by {
            if payload@ == spec_tagged(t, b) {
                // the tag would have ended at the quote before position i
                assert(payload@[2 + t.len() as int] == 34);
                assert(forall|j: int| 0 <= j < t.len() ==> payload@[2 + j] == t[j]);
                if 2 + t.len() < i {
                    assert(is_tag_byte(payload@[2 + t.len() as int]));
                } else {
                    assert(i < flen && 2 < i);
                    assert(!is_tag_byte(payload@[i as int]));
                    assert(i as int - 2 < t.len());
                    assert(payload@[i as int] == t[i as int - 2]);
                }
            }
        }
        return None;
    }
    if i + 1 >= flen || payload[i + 1] != 58 {
        assert forall|t: Seq<u8>, b: Seq<u8>| wf_tag(t) implies payload@ != spec_tagged(t, b) by {
            if payload@ == spec_tagged(t, b) {
                assert(payload@[2 + t.len() as int] == 34);
                assert(forall|j: int| 0 <= j < t.len() ==> payload@[2 + j] == t[j]);
                if 2 + t.len() < i {
                    assert(is_tag_byte(payload@[2 + t.len() as int]));
                }
                if (i as int) < 2 + t.len() {
                    assert(payload@[i as int] == t[i as int - 2]);
                    assert(is_tag_byte(payload@[i as int]));
                }
                assert(i as int == 2 + t.len());
                assert(payload@[3 + t.len() as int] == 58);
                assert(spec_tagged(t, b).len() >= 5 + t.len());
            }
        }
        return None;
    }
    if payload[flen - 1] != 125 || i + 2 > flen - 1 {
        assert forall|t: Seq<u8>, b: Seq<u8>| wf_tag(t) implies payload@ != spec_tagged(t, b) by {
            if payload@ == spec_tagged(t, b) {
                assert(payload@[2 + t.len() as int] == 34);
                assert(forall|j: int| 0 <= j < t.len() ==> payload@[2 + j] == t[j]);
                if 2 + t.len() < i {
                    assert(is_tag_byte(payload@[2 + t.len() as int]));
                }
                if (i as int) < 2 + t.len() {
                    assert(payload@[i as int] == t[i as int - 2]);
                    assert(is_tag_byte(payload@[i as int]));
                }
                assert(i as int == 2 + t.len());
                assert(payload@[payload@.len() - 1] == 125);
                assert(payload@.len() == 5 + t.len() + b.len());
            }
        }
        return None;
    }
    let mut tag: Vec<u8> = Vec::new();
    let mut j: usize = 2;
    while j < i
        invariant
            flen == payload@.len(),
            2 <= j <= i <= flen,
            tag@ == payload@.subrange(2, j as int),
        decreases i - j,
    {
        tag.push(payload[j]);
        assert(tag@ =~= payload@.subrange(2, j + 1));
        j = j + 1;
    }
    let mut body: Vec<u8> = Vec::new();
    let mut m: usize = i + 2;
    while m < flen - 1
        invariant
            flen == payload@.len(),
            i + 2 <= m <= flen - 1,
            body@ == payload@.subrange(i + 2, m as int),
        decreases flen - m,
    {
        body.push(payload[m]);
        assert(body@ =~= payload@.subrange(i + 2, m + 1));
        m = m + 1;
    }
    assert(wf_tag(tag@));
    assert(payload@ =~= spec_tagged(tag@, body@));
    Some((tag, body))
}

fn js_error_tag_vec() -> (r: Vec<u8>)
    ensures
        r@ == js_error_tag(),
{
    let mut v: Vec<u8> = Vec::new();
    v.push(74);
    v.push(115);
    v.push(69);
    v.push(114);
    v.push(114);
    v.push(111);
    v.push(114);
    assert(v@ =~= js_error_tag());
    v
}

/// Splits a reply payload and maps the peer's failure variant to an error:
/// a `JsError` reply becomes `CallError::Remote` carrying the reply body,
/// any other well-formed reply yields its tag and body, and a payload of no
/// recognizable shape is itself an error.
pub fn map_js_error_data(payload: &Vec<u8>) -> (r: Result<(Vec<u8>, Vec<u8>), CallError>)
    ensures
        match r {
            Ok(d) => wf_tag(d.0@) && d.0@ != js_error_tag() && payload@ == spec_tagged(d.0@, d.1@),
            Err(e) => match e {
                CallError::Remote { message } => payload@ == spec_tagged(
                    js_error_tag(),
                    message@,
                ),
                CallError::UnexpectedShape => forall|t: Seq<u8>, b: Seq<u8>|
                    wf_tag(t) ==> payload@ != spec_tagged(t, b),
                CallError::ConnectionClosed => false,
            },
        },
{
    match classify_reply(payload) {
        Some((tag, body)) => {
            let js = js_error_tag_vec();
            let is_js = tag.len() == js.len() && eq_range(&tag, 0, &js);
            if is_js {
                assert(tag@ =~= js_error_tag());
                Err(CallError::Remote { message: body })
            } else {
                assert(tag@ != js_error_tag()) by {
                    if tag@ == js_error_tag() {
                        assert(tag@.subrange(0, 7) =~= js_error_tag());
                    }
                }
                Ok((tag, body))
            }
        },
        None => Err(CallError::UnexpectedShape),
    }
}

/// As `map_js_error_data`, for calls that only care whether the command
/// succeeded: any well-formed reply other than `JsError` counts as success.
pub fn map_js_error(payload: &Vec<u8>) -> (r: Result<(), CallError>)
    ensures
        match r {
            Ok(()) => exists|t: Seq<u8>, b: Seq<u8>|
                wf_tag(t) && t != js_error_tag() && payload@ == spec_tagged(t, b),
            Err(e) => match e {
                CallError::Remote { message } => payload@ == spec_tagged(
                    js_error_tag(),
                    message@,
                ),
                CallError::UnexpectedShape => forall|t: Seq<u8>, b: Seq<u8>|
                    wf_tag(t) ==> payload@ != spec_tagged(t, b),
                CallError::ConnectionClosed => false,
            },
        },
{
    match map_js_error_data(payload) {
        Ok((tag, body)) => {
            assert(wf_tag(tag@) && tag@ != js_error_tag() && payload@ == spec_tagged(
                tag@,
                body@,
            ));
            Ok(())
        },
        Err(e) => Err(e),
    }
}

} // verus!
