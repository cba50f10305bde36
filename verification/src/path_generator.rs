use vstd::prelude::*;

use vstd::string::*;

use rand::Rng;

use crate::strutil::{is_prefix, str_eq, str_starts_with};

verus! {

/// One decimal digit as a character.
pub open spec fn digit_char(d: int) -> char {
    if d == 0 {
        '0'
    } else if d == 1 {
        '1'
    } else if d == 2 {
        '2'
    } else if d == 3 {
        '3'
    } else if d == 4 {
        '4'
    } else if d == 5 {
        '5'
    } else if d == 6 {
        '6'
    } else if d == 7 {
        '7'
    } else if d == 8 {
        '8'
    } else {
        '9'
    }
}

/// A value below 1000, zero-padded to three digits.
pub open spec fn pad3(n: int) -> Seq<char> {
    seq![digit_char(n / 100), digit_char((n / 10) % 10), digit_char(n % 10)]
}

/// The three shard directories of a counter value: its base-1000 digit
/// groups, most significant first, each zero-padded to width three. Each leaf
/// directory then holds at most 1000 entries and each parent at most 1000
/// subdirectories.
pub open spec fn shard_dirs(id: int) -> Seq<char> {
    pad3((id / 1000000) % 1000) + seq!['/'] + pad3((id / 1000) % 1000) + seq!['/'] + pad3(
        id % 1000,
    )
}

/// The relative path for counter value `id`: the shard directories, then a
/// filename made of `stem` and `extension`.
pub open spec fn rel_path(id: int, stem: Seq<char>, extension: Seq<char>) -> Seq<char> {
    shard_dirs(id) + seq!['/'] + stem + seq!['.'] + extension
}

/// An ASCII letter or digit.
pub open spec fn is_alnum(c: char) -> bool {
    ('A' <= c && c <= 'Z') || ('a' <= c && c <= 'z') || ('0' <= c && c <= '9')
}

/// The ten decimal digits as string slices.
fn digit_str(d: u32) -> (r: &'static str)
    requires
        d < 10,
    ensures
        r@ == seq![digit_char(d as int)],
{
    proof {
        reveal_strlit("0");
        reveal_strlit("1");
        reveal_strlit("2");
        reveal_strlit("3");
        reveal_strlit("4");
        reveal_strlit("5");
        reveal_strlit("6");
        reveal_strlit("7");
        reveal_strlit("8");
        reveal_strlit("9");
    }
    if d == 0 {
        "0"
    } else if d == 1 {
        "1"
    } else if d == 2 {
        "2"
    } else if d == 3 {
        "3"
    } else if d == 4 {
        "4"
    } else if d == 5 {
        "5"
    } else if d == 6 {
        "6"
    } else if d == 7 {
        "7"
    } else if d == 8 {
        "8"
    } else {
        "9"
    }
}

/// Append `n`, zero-padded to three digits, to `out`.
fn append_pad3(out: &mut String, n: u32)
    requires
        n < 1000,
    ensures
        final(out)@ == old(out)@ + pad3(n as int),
{
    out.append(digit_str(n / 100));
    out.append(digit_str((n / 10) % 10));
    out.append(digit_str(n % 10));
    proof {
        assert(final(out)@ =~= old(out)@ + pad3(n as int));
    }
}

/// The relative path for counter value `id`, stem and extension included:
/// exactly the model-level [`rel_path`].
pub fn relative_path_for(id: usize, stem: &str, extension: &str) -> (r: String)
    ensures
        r@ == rel_path(id as int, stem@, extension@),
{
    proof {
        reveal_strlit("/");
        reveal_strlit(".");
    }
    let g2: u32 = ((id / 1000000) % 1000) as u32;
    let g1: u32 = ((id / 1000) % 1000) as u32;
    let g0: u32 = (id % 1000) as u32;
    let mut out = String::new();
    append_pad3(&mut out, g2);
    out.append("/");
    append_pad3(&mut out, g1);
    out.append("/");
    append_pad3(&mut out, g0);
    out.append("/");
    out.append(stem);
    out.append(".");
    out.append(extension);
    proof {
        assert(out@ =~= rel_path(id as int, stem@, extension@));
    }
    out
}

/// Relies on rand's `Alphanumeric` distribution: every sampled byte is an
/// ASCII letter or digit, and ten are taken.
#[verifier::external_body]
fn random_stem() -> (r: String)
    ensures
        r@.len() == 10,
        forall|i: int| 0 <= i < r@.len() ==> is_alnum(#[trigger] r@[i]),
{
    rand::rng().sample_iter(rand::distr::Alphanumeric).take(10).map(char::from).collect()
}

/// Collision-free source of storage paths: a monotonically increasing
/// counter, sharded into three directory levels, with a random ten-character
/// filename stem. Every path it hands out while the counter stays below the
/// shard space's size is distinct; see [`lemma_rel_paths_distinct`].
pub struct PathGenerator {
    /// Directory all stored files live under.
    pub root_dir: String,
    /// The next counter value to mint; never reused.
    pub next_path: usize,
}

impl PathGenerator {
    /// An allocator rooted at `root_dir`, minting ids from `start` up.
    pub fn new(root_dir: &str, start: usize) -> (r: PathGenerator)
        ensures
            r.root_dir@ == root_dir@,
            r.next_path == start,
    {
        PathGenerator { root_dir: root_dir.to_owned(), next_path: start }
    }

    /// Mint the next relative path: the current counter value's shard
    /// directories, a random alphanumeric stem, and the given extension. The
    /// counter moves up by one and is never handed out twice.
    pub fn next_path(&mut self, extension: &str) -> (r: String)
        requires
            old(self).next_path < usize::MAX,
        ensures
            final(self).next_path == old(self).next_path + 1,
            final(self).root_dir == old(self).root_dir,
            exists|stem: Seq<char>|
                #![auto]
                r@ == rel_path(old(self).next_path as int, stem, extension@) && stem.len() == 10
                    && (forall|i: int| 0 <= i < stem.len() ==> is_alnum(#[trigger] stem[i])),
    {
        let id = self.next_path;
        self.next_path = id + 1;
        let stem = random_stem();
        let r = relative_path_for(id, stem.as_str(), extension);
        proof {
            assert(r@ == rel_path(id as int, stem@, extension@) && stem@.len() == 10 && (forall|
                i: int,
            | 0 <= i < stem@.len() ==> is_alnum(#[trigger] stem@[i])));
        }
        r
    }

    /// Mint a stored filename for one arriving part, as the file sink asks
    /// for one: any `image/*` media type gets the next sharded relative path
    /// with the type's canonical extension; any other type yields nothing,
    /// since only image parts are stored under allocator paths.
    pub fn next_filename(&mut self, mime_type: &str) -> (r: Option<String>)
        requires
            old(self).next_path < usize::MAX,
        ensures
            r is Some <==> is_prefix(mime_type@, "image/"@),
            match r {
                Option::Some(p) => {
                    &&& final(self).next_path == old(self).next_path + 1
                    &&& final(self).root_dir == old(self).root_dir
                    &&& exists|stem: Seq<char>|
                        #![auto]
                        p@ == rel_path(
                            old(self).next_path as int,
                            stem,
                            mime_extension_spec(mime_type@),
                        ) && stem.len() == 10 && (forall|i: int|
                            0 <= i < stem.len() ==> is_alnum(#[trigger] stem[i]))
                },
                Option::None => *final(self) == *old(self),
            },
    {
        if str_starts_with(mime_type, "image/") {
            let ext = extension_for_mime(mime_type);
            Some(self.next_path(ext))
        } else {
            None
        }
    }

    /// The path `rel` under this allocator's root directory.
    pub fn rooted(&self, rel: &str) -> (r: String)
        ensures
            r@ == self.root_dir@ + seq!['/'] + rel@,
    {
        proof {
            reveal_strlit("/");
        }
        let mut out = self.root_dir.clone();
        out.append("/");
        out.append(rel);
        proof {
            assert(out@ =~= self.root_dir@ + seq!['/'] + rel@);
        }
        out
    }
}

/// The canonical file extension for a declared image media type; `png`
/// stands in for any other image subtype, as the stored default.
pub open spec fn mime_extension_spec(m: Seq<char>) -> Seq<char> {
    if m == "image/bmp"@ {
        "bmp"@
    } else if m == "image/gif"@ {
        "gif"@
    } else if m == "image/jpeg"@ {
        "jpg"@
    } else {
        "png"@
    }
}

/// The canonical extension for an image media type.
pub fn extension_for_mime(mime_type: &str) -> (r: &'static str)
    ensures
        r@ == mime_extension_spec(mime_type@),
{
    if str_eq(mime_type, "image/bmp") {
        "bmp"
    } else if str_eq(mime_type, "image/gif") {
        "gif"
    } else if str_eq(mime_type, "image/jpeg") {
        "jpg"
    } else {
        "png"
    }
}

/// Distinct counter values below the shard space's size give distinct shard
/// directories.
pub proof fn lemma_shard_dirs_injective(i: int, j: int)
    requires
        0 <= i < 1000000000,
        0 <= j < 1000000000,
        i != j,
    ensures
        shard_dirs(i) != shard_dirs(j),
{
    let i2 = (i / 1000000) % 1000;
    let i1 = (i / 1000) % 1000;
    let i0 = i % 1000;
    let j2 = (j / 1000000) % 1000;
    let j1 = (j / 1000) % 1000;
    let j0 = j % 1000;
    assert(i == i2 * 1000000 + i1 * 1000 + i0) by (nonlinear_arith)
        requires
            0 <= i < 1000000000,
            i2 == (i / 1000000) % 1000,
            i1 == (i / 1000) % 1000,
            i0 == i % 1000,
    ;
    assert(j == j2 * 1000000 + j1 * 1000 + j0) by (nonlinear_arith)
        requires
            0 <= j < 1000000000,
            j2 == (j / 1000000) % 1000,
            j1 == (j / 1000) % 1000,
            j0 == j % 1000,
    ;
    assert(i2 != j2 || i1 != j1 || i0 != j0) by (nonlinear_arith)
        requires
            i == i2 * 1000000 + i1 * 1000 + i0,
            j == j2 * 1000000 + j1 * 1000 + j0,
            i != j,
    ;
    if i2 != j2 {
        lemma_pad3_injective(i2, j2);
        let p = choose|p: int| 0 <= p < 3 && pad3(i2)[p] != pad3(j2)[p];
        assert(shard_dirs(i)[p] != shard_dirs(j)[p]);
    } else if i1 != j1 {
        lemma_pad3_injective(i1, j1);
        let p = choose|p: int| 0 <= p < 3 && pad3(i1)[p] != pad3(j1)[p];
        assert(shard_dirs(i)[4 + p] != shard_dirs(j)[4 + p]);
    } else {
        lemma_pad3_injective(i0, j0);
        let p = choose|p: int| 0 <= p < 3 && pad3(i0)[p] != pad3(j0)[p];
        assert(shard_dirs(i)[8 + p] != shard_dirs(j)[8 + p]);
    }
}

/// Distinct values below 1000 give distinct three-digit paddings; a witness
/// position differs.
proof fn lemma_pad3_injective(n: int, m: int)
    requires
        0 <= n < 1000,
        0 <= m < 1000,
        n != m,
    ensures
        exists|p: int| 0 <= p < 3 && pad3(n)[p] != pad3(m)[p],
{
    assert(n == (n / 100) * 100 + ((n / 10) % 10) * 10 + n % 10) by (nonlinear_arith)
        requires
            0 <= n < 1000,
    ;
    assert(m == (m / 100) * 100 + ((m / 10) % 10) * 10 + m % 10) by (nonlinear_arith)
        requires
            0 <= m < 1000,
    ;
    if n / 100 != m / 100 {
        lemma_digit_char_injective(n / 100, m / 100);
        assert(pad3(n)[0] != pad3(m)[0]);
    } else if (n / 10) % 10 != (m / 10) % 10 {
        lemma_digit_char_injective((n / 10) % 10, (m / 10) % 10);
        assert(pad3(n)[1] != pad3(m)[1]);
    } else {
        assert(n % 10 != m % 10);
        lemma_digit_char_injective(n % 10, m % 10);
        assert(pad3(n)[2] != pad3(m)[2]);
    }
}

proof fn lemma_digit_char_injective(d: int, e: int)
    requires
        0 <= d < 10,
        0 <= e < 10,
        d != e,
    ensures
        digit_char(d) != digit_char(e),
{
}

/// Law: the allocator never mints one path twice. Two paths formed for
/// distinct counter values below the shard space's size differ, whatever
/// stems were drawn and whatever extensions were asked for.
pub proof fn lemma_rel_paths_distinct(
    i: int,
    j: int,
    stem_i: Seq<char>,
    ext_i: Seq<char>,
    stem_j: Seq<char>,
    ext_j: Seq<char>,
)
    requires
        0 <= i < 1000000000,
        0 <= j < 1000000000,
        i != j,
    ensures
        rel_path(i, stem_i, ext_i) != rel_path(j, stem_j, ext_j),
{
    lemma_shard_dirs_injective(i, j);
    assert(shard_dirs(i).len() == 11);
    assert(shard_dirs(j).len() == 11);
    if forall|p: int| 0 <= p < 11 ==> shard_dirs(i)[p] == shard_dirs(j)[p] {
        assert(shard_dirs(i) =~= shard_dirs(j));
        assert(false);
    }
    let p = choose|p: int| 0 <= p < 11 && shard_dirs(i)[p] != shard_dirs(j)[p];
    assert(rel_path(i, stem_i, ext_i)[p] == shard_dirs(i)[p]);
    assert(rel_path(j, stem_j, ext_j)[p] == shard_dirs(j)[p]);
}

} // verus!
