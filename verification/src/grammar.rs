use vstd::prelude::*;

use vstd::string::*;

use crate::error::DropmuttError;

verus! {

/// One segment of a bracketed field name such as `gallery[images][]`.
///
/// A name path is non-empty and always starts with `Field`; a bare identifier
/// anywhere else is rejected by [`parse_field_name`].
#[derive(Debug, Clone, PartialEq, Eq)]
pub enum NamePathSegment {
    /// A bare identifier; only ever the first segment.
    Field(String),
    /// A bracketed key, `[name]`.
    Key(String),
    /// An empty bracket pair, `[]`, denoting an array append.
    Index,
}

/// Model of a name-path segment.
pub enum NameSeg {
    Field(Seq<char>),
    Key(Seq<char>),
    Index,
}

impl View for NamePathSegment {
    type V = NameSeg;

    open spec fn view(&self) -> NameSeg {
        match self {
            NamePathSegment::Field(s) => NameSeg::Field(s@),
            NamePathSegment::Key(s) => NameSeg::Key(s@),
            NamePathSegment::Index => NameSeg::Index,
        }
    }
}

/// Model of a whole name path.
pub open spec fn segs_view(segments: Seq<NamePathSegment>) -> Seq<NameSeg> {
    Seq::new(
        segments.len(),
        |i: int|
            if 0 <= i < segments.len() {
                segments[i]@
            } else {
                NameSeg::Index
            },
    )
}

/// Index of the first occurrence of `c` in `s`, or `s.len()` when absent.
pub open spec fn find_char(s: Seq<char>, c: char) -> int
    decreases s.len(),
{
    if s.len() == 0 {
        0
    } else if s[0] == c {
        0
    } else {
        1 + find_char(s.subrange(1, s.len() as int), c)
    }
}

pub proof fn lemma_find_char(s: Seq<char>, c: char)
    ensures
        0 <= find_char(s, c) <= s.len(),
        forall|t: int| 0 <= t < find_char(s, c) ==> s[t] != c,
        find_char(s, c) < s.len() ==> s[find_char(s, c)] == c,
    decreases s.len(),
{
    if s.len() != 0 && s[0] != c {
        lemma_find_char(s.subrange(1, s.len() as int), c);
        assert forall|t: int| 0 <= t < find_char(s, c) implies s[t] != c by {
            if t > 0 {
                assert(s.subrange(1, s.len() as int)[t - 1] == s[t]);
            }
        }
    }
}

/// Any index below the first occurrence of `c`, at which `c` stands or the
/// string ends, is that first occurrence.
pub proof fn lemma_find_char_is(s: Seq<char>, c: char, j: int)
    requires
        0 <= j <= s.len(),
        forall|t: int| 0 <= t < j ==> s[t] != c,
        j < s.len() ==> s[j] == c,
    ensures
        find_char(s, c) == j,
    decreases s.len(),
{
    if s.len() != 0 {
        if j == 0 {
        } else {
            assert(s[0] != c);
            lemma_find_char_is(s.subrange(1, s.len() as int), c, j - 1);
        }
    }
}

/// Reading of one chunk that followed a `[`: exactly `]` is an array append;
/// content closed by a final `]` is a key; anything else is malformed.
pub open spec fn later_chunk_seg(c: Seq<char>) -> Option<NameSeg> {
    if c.len() == 1 && c[0] == ']' {
        Some(NameSeg::Index)
    } else if c.len() >= 2 && c[c.len() - 1] == ']' && (forall|i: int|
        0 <= i < c.len() - 1 ==> c[i] != ']') {
        Some(NameSeg::Key(c.subrange(0, c.len() - 1)))
    } else {
        None
    }
}

/// Reading of the chunks after the first, each chunk ending at the next `[`
/// or at the end of the name.
pub open spec fn parse_rest(s: Seq<char>) -> Option<Seq<NameSeg>>
    decreases s.len(),
    via parse_rest_dec
{
    let j = find_char(s, '[');
    let chunk = s.subrange(0, j);
    match later_chunk_seg(chunk) {
        Option::None => Option::None,
        Option::Some(seg) => if j == s.len() {
            Option::Some(seq![seg])
        } else {
            match parse_rest(s.subrange(j + 1, s.len() as int)) {
                Option::None => Option::None,
                Option::Some(rest) => Option::Some(seq![seg] + rest),
            }
        },
    }
}

#[via_fn]
proof fn parse_rest_dec(s: Seq<char>) {
    lemma_find_char(s, '[');
}

/// The bracket grammar: the chunk before the first `[` is a non-empty bare
/// field name, and every later chunk is read by [`later_chunk_seg`]. `None`
/// is a malformed name.
pub open spec fn spec_parse_name(s: Seq<char>) -> Option<Seq<NameSeg>> {
    let j = find_char(s, '[');
    let c0 = s.subrange(0, j);
    if c0.len() == 0 || (exists|i: int| 0 <= i < c0.len() && c0[i] == ']') {
        Option::None
    } else if j == s.len() {
        Option::Some(seq![NameSeg::Field(c0)])
    } else {
        match parse_rest(s.subrange(j + 1, s.len() as int)) {
            Option::None => Option::None,
            Option::Some(rest) => Option::Some(seq![NameSeg::Field(c0)] + rest),
        }
    }
}

/// Index of the first `c` in `s` at or after `from` and below `to`, or `to`
/// when that range holds none.
pub fn scan_char(s: &str, from: usize, to: usize, c: char) -> (r: usize)
    requires
        from <= to <= s@.len(),
    ensures
        from <= r <= to,
        forall|t: int| from <= t < r ==> s@[t] != c,
        r < to ==> s@[r as int] == c,
{
    let mut j: usize = from;
    while j < to
        invariant
            from <= j <= to <= s@.len(),
            forall|t: int| from <= t < j ==> s@[t] != c,
        decreases to - j,
    {
        if s.get_char(j) == c {
            return j;
        }
        j = j + 1;
    }
    j
}

/// Parse a bracketed field name into its name path.
///
/// Deterministic in the name: the result is exactly what the grammar
/// [`spec_parse_name`] reads, and the parse fails if and only if the grammar
/// rejects the name (a bare chunk after the first, an empty first chunk, or
/// unbalanced brackets).
#[verifier::loop_isolation(false)]
pub fn parse_field_name(raw: &str) -> (r: Result<Vec<NamePathSegment>, DropmuttError>)
    ensures
        match r {
            Ok(segments) => spec_parse_name(raw@) == Option::Some(segs_view(segments@)),
            Err(e) => e == DropmuttError::InvalidFieldName && spec_parse_name(raw@) is None,
        },
{
    let len = raw.unicode_len();
    let j0 = scan_char(raw, 0, len, '[');
    proof {
        lemma_find_char_is(raw@, '[', j0 as int);
        assert(raw@.subrange(0, j0 as int) =~= raw@.subrange(0, find_char(raw@, '[')));
    }
    let k0 = scan_char(raw, 0, j0, ']');
    if j0 == 0 || k0 < j0 {
        proof {
            if j0 != 0 {
                let c0 = raw@.subrange(0, find_char(raw@, '['));
                assert(c0[k0 as int] == raw@[k0 as int]);
            }
        }
        return Err(DropmuttError::InvalidFieldName);
    }
    let mut segments: Vec<NamePathSegment> = Vec::new();
    let field = raw.substring_char(0, j0).to_owned();
    segments.push(NamePathSegment::Field(field));
    if j0 == len {
        proof {
            assert(segs_view(segments@) =~= seq![NameSeg::Field(raw@.subrange(0, j0 as int))]);
        }
        return Ok(segments);
    }
    let mut pos: usize = j0 + 1;
    loop
        invariant
            j0 < pos <= len,
            len == raw@.len(),
            segments@.len() >= 1,
            match parse_rest(raw@.subrange(pos as int, len as int)) {
                Option::None => spec_parse_name(raw@) is None,
                Option::Some(rest) => spec_parse_name(raw@) == Option::Some(
                    segs_view(segments@) + rest,
                ),
            },
        decreases len - pos,
    {
        let ghost tail = raw@.subrange(pos as int, len as int);
        let j = scan_char(raw, pos, len, '[');
        proof {
            assert forall|t: int| 0 <= t < j - pos implies tail[t] != '[' by {
                assert(tail[t] == raw@[pos + t]);
            }
            if j < len {
                assert(tail[j - pos] == raw@[j as int]);
            }
            lemma_find_char_is(tail, '[', j - pos);
        }
        let ghost chunk = tail.subrange(0, j - pos);
        proof {
            assert forall|t: int| 0 <= t < chunk.len() implies chunk[t] == raw@[pos + t] by {
                assert(chunk[t] == tail[t]);
            }
        }
        let k = scan_char(raw, pos, j, ']');
        let seg: NamePathSegment;
        if k < j && k + 1 == j {
            // The chunk's only `]` closes it.
            if pos + 1 == j {
                seg = NamePathSegment::Index;
                proof {
                    assert(chunk.len() == 1 && chunk[0] == ']');
                    assert(later_chunk_seg(chunk) == Option::Some(NameSeg::Index));
                }
            } else {
                let key = raw.substring_char(pos, j - 1).to_owned();
                proof {
                    assert(chunk.len() >= 2 && chunk[chunk.len() - 1] == ']');
                    assert forall|i: int| 0 <= i < chunk.len() - 1 implies chunk[i] != ']' by {
                        assert(chunk[i] == raw@[pos + i]);
                    }
                    assert(key@ =~= chunk.subrange(0, chunk.len() - 1));
                    assert(later_chunk_seg(chunk) == Option::Some(NameSeg::Key(key@)));
                }
                seg = NamePathSegment::Key(key);
            }
        } else {
            // Either no `]` at all, or one that does not close the chunk.
            proof {
                if chunk.len() == 1 && chunk[0] == ']' {
                    assert(raw@[pos as int] == ']');
                    assert(k == pos);
                }
                if chunk.len() >= 2 && chunk[chunk.len() - 1] == ']' && (forall|i: int|
                    0 <= i < chunk.len() - 1 ==> chunk[i] != ']') {
                    assert(raw@[j - 1] == chunk[chunk.len() - 1]);
                    assert forall|t: int| pos <= t < j - 1 implies raw@[t] != ']' by {
                        assert(chunk[t - pos] == raw@[t]);
                    }
                    assert(k == j - 1);
                }
                assert(later_chunk_seg(chunk) is None);
            }
            return Err(DropmuttError::InvalidFieldName);
        }
        let ghost old_segments = segments@;
        segments.push(seg);
        proof {
            assert(segs_view(segments@) =~= segs_view(old_segments) + seq![seg@]);
        }
        if j == len {
            proof {
                assert(parse_rest(tail) == Option::Some(seq![seg@]));
                assert(segs_view(old_segments) + seq![seg@] =~= segs_view(segments@));
            }
            return Ok(segments);
        }
        proof {
            assert(tail.subrange(j - pos + 1, tail.len() as int) =~= raw@.subrange(
                j + 1,
                len as int,
            ));
            assert(parse_rest(tail) == match parse_rest(raw@.subrange(j + 1, len as int)) {
                Option::None => Option::None::<Seq<NameSeg>>,
                Option::Some(rest) => Option::Some(seq![seg@] + rest),
            });
            if parse_rest(raw@.subrange(j + 1, len as int)) is Some {
                let rest = parse_rest(raw@.subrange(j + 1, len as int))->Some_0;
                assert(segs_view(old_segments) + (seq![seg@] + rest) =~= segs_view(segments@)
                    + rest);
            }
        }
        pos = j + 1;
    }
}

} // verus!
