use vstd::prelude::*;

use vstd::string::*;

use crate::strutil::{trim_spec, strip_quotes_spec, trim_range, str_eq};
use crate::grammar::find_char;
use crate::grammar::lemma_find_char_is;

verus! {

/// The `name` and optional `filename` read from one part's
/// `Content-Disposition` header.
pub struct Disposition {
    pub name: Option<String>,
    pub filename: Option<String>,
}

/// The `name` attribute's key.
pub open spec fn name_key() -> Seq<char> {
    seq!['n', 'a', 'm', 'e']
}

/// The `filename` attribute's key.
pub open spec fn filename_key() -> Seq<char> {
    seq!['f', 'i', 'l', 'e', 'n', 'a', 'm', 'e']
}

/// Reading of one `;`-delimited attribute segment: the key before the first
/// `=` and the value after it, both trimmed, the value without one pair of
/// surrounding quotes. A segment without `=` is no attribute and is skipped.
pub open spec fn attr_of(seg: Seq<char>) -> Option<(Seq<char>, Seq<char>)> {
    let e = find_char(seg, '=');
    if e == seg.len() {
        Option::None
    } else {
        Option::Some(
            (
                trim_spec(seg.subrange(0, e)),
                strip_quotes_spec(trim_spec(seg.subrange(e + 1, seg.len() as int))),
            ),
        )
    }
}

/// Value of the first attribute named `key` in the `;`-delimited attribute
/// list `s`, if any.
pub open spec fn disp_attr(s: Seq<char>, key: Seq<char>) -> Option<Seq<char>>
    decreases s.len(),
    via disp_attr_dec
{
    let j = find_char(s, ';');
    let seg = s.subrange(0, j);
    let here = attr_of(seg);
    if here is Some && here->Some_0.0 == key {
        Option::Some(here->Some_0.1)
    } else if j == s.len() {
        Option::None
    } else {
        disp_attr(s.subrange(j + 1, s.len() as int), key)
    }
}

#[via_fn]
proof fn disp_attr_dec(s: Seq<char>, key: Seq<char>) {
    crate::grammar::lemma_find_char(s, ';');
}

/// Parse a `Content-Disposition` header value.
///
/// Splits on `;`, reads each `key=value` attribute with whitespace trimmed
/// and one pair of surrounding quotes stripped from the value, skips
/// malformed segments, and keeps the first `name` and the first `filename`.
#[verifier::loop_isolation(false)]
#[verifier::rlimit(60)]
pub fn parse_content_disposition(header: &str) -> (r: Disposition)
    ensures
        match r.name {
            Option::Some(s) => disp_attr(header@, name_key()) == Option::Some(s@),
            Option::None => disp_attr(header@, name_key()) is None,
        },
        match r.filename {
            Option::Some(s) => disp_attr(header@, filename_key()) == Option::Some(s@),
            Option::None => disp_attr(header@, filename_key()) is None,
        },
{
    let len = header.unicode_len();
    let mut name: Option<String> = None;
    let mut filename: Option<String> = None;
    let mut pos: usize = 0;
    let mut done = false;
    proof {
        reveal_strlit("name");
        reveal_strlit("filename");
        assert("name"@ =~= name_key());
        assert("filename"@ =~= filename_key());
        assert(header@.subrange(0, len as int) =~= header@);
    }
    while !done
        invariant
            pos <= len,
            len == header@.len(),
            done ==> match name {
                Option::Some(s) => disp_attr(header@, name_key()) == Option::Some(s@),
                Option::None => disp_attr(header@, name_key()) is None,
            },
            done ==> match filename {
                Option::Some(s) => disp_attr(header@, filename_key()) == Option::Some(s@),
                Option::None => disp_attr(header@, filename_key()) is None,
            },
            !done ==> match name {
                Option::Some(s) => disp_attr(header@, name_key()) == Option::Some(s@),
                Option::None => disp_attr(header@, name_key()) == disp_attr(
                    header@.subrange(pos as int, len as int),
                    name_key(),
                ),
            },
            !done ==> match filename {
                Option::Some(s) => disp_attr(header@, filename_key()) == Option::Some(s@),
                Option::None => disp_attr(header@, filename_key()) == disp_attr(
                    header@.subrange(pos as int, len as int),
                    filename_key(),
                ),
            },
        decreases len - pos, if done { 0int } else { 1int },
    {
        let ghost tail = header@.subrange(pos as int, len as int);
        let j = crate::grammar::scan_char(header, pos, len, ';');
        proof {
            assert forall|t: int| 0 <= t < j - pos implies tail[t] != ';' by {
                assert(tail[t] == header@[pos + t]);
            }
            if j < len {
                assert(tail[j - pos] == header@[j as int]);
            }
            lemma_find_char_is(tail, ';', j - pos);
        }
        let ghost seg = tail.subrange(0, j - pos);
        proof {
            assert(seg =~= header@.subrange(pos as int, j as int));
        }
        let e = crate::grammar::scan_char(header, pos, j, '=');
        proof {
            assert forall|t: int| 0 <= t < e - pos implies seg[t] != '=' by {
                assert(seg[t] == header@[pos + t]);
            }
            if e < j {
                assert(seg[e - pos] == header@[e as int]);
            }
            lemma_find_char_is(seg, '=', e - pos);
        }
        if e < j {
            // key := trim of [pos, e)
            let (ka, kb) = trim_range(header, pos, e);
            proof {
                assert(seg.subrange(0, e - pos) =~= header@.subrange(pos as int, e as int));
            }
            // value := trim of [e + 1, j), then strip one pair of quotes
            let (va0, vb0) = trim_range(header, e + 1, j);
            proof {
                assert(seg.subrange(e - pos + 1, seg.len() as int) =~= header@.subrange(
                    e + 1,
                    j as int,
                ));
            }
            let mut va = va0;
            let mut vb = vb0;
            if vb0 - va0 >= 2 && header.get_char(va0) == '"' && header.get_char(vb0 - 1) == '"' {
                va = va0 + 1;
                vb = vb0 - 1;
            }
            proof {
                let tv = trim_spec(seg.subrange(e - pos + 1, seg.len() as int));
                assert(strip_quotes_spec(tv) =~= header@.subrange(va as int, vb as int));
            }
            let key = header.substring_char(ka, kb);
            if name.is_none() && str_eq(key, "name") {
                let value = header.substring_char(va, vb).to_owned();
                name = Some(value);
            } else if filename.is_none() && str_eq(key, "filename") {
                let value = header.substring_char(va, vb).to_owned();
                filename = Some(value);
            }
        }
        proof {
            if j < len {
                assert(tail.subrange(j - pos + 1, tail.len() as int) =~= header@.subrange(
                    j + 1,
                    len as int,
                ));
            }
        }
        if j == len {
            done = true;
        } else {
            pos = j + 1;
        }
    }
    Disposition { name, filename }
}

} // verus!
