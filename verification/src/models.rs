use vstd::prelude::*;

use vstd::string::*;

use crate::error::DropmuttError;
use crate::path_generator::digit_char;
use crate::strutil::str_eq;

verus! {

/// Decimal digits of `n >= 0`, most significant first, without sign.
pub open spec fn dec_digits(n: int) -> Seq<char>
    decreases n,
{
    if n < 10 {
        seq![digit_char(n)]
    } else {
        dec_digits(n / 10) + seq![digit_char(n % 10)]
    }
}

/// Decimal rendering of `n`, with a leading `-` when negative.
pub open spec fn dec_str(n: int) -> Seq<char> {
    if n < 0 {
        seq!['-'] + dec_digits(-n)
    } else {
        dec_digits(n)
    }
}

/// The ten decimal digits as string slices.
fn digit_str(d: u32) -> (r: &'static str)
    requires
        d < 10,
    ensures
        r@ == seq![digit_char(d as int)],
{
    proof {
        reveal_strlit("0");
        reveal_strlit("1");
        reveal_strlit("2");
        reveal_strlit("3");
        reveal_strlit("4");
        reveal_strlit("5");
        reveal_strlit("6");
        reveal_strlit("7");
        reveal_strlit("8");
        reveal_strlit("9");
    }
    if d == 0 {
        "0"
    } else if d == 1 {
        "1"
    } else if d == 2 {
        "2"
    } else if d == 3 {
        "3"
    } else if d == 4 {
        "4"
    } else if d == 5 {
        "5"
    } else if d == 6 {
        "6"
    } else if d == 7 {
        "7"
    } else if d == 8 {
        "8"
    } else {
        "9"
    }
}

/// Append the decimal rendering of `n` to `out`.
#[verifier::loop_isolation(false)]
fn append_u32(out: &mut String, n: u32)
    ensures
        final(out)@ == old(out)@ + dec_digits(n as int),
{
    let mut digits: Vec<u32> = Vec::new();
    let mut m: u32 = n;
    if m == 0 {
        digits.push(0);
        proof {
            assert(dec_digits(0) =~= Seq::new(
                digits@.len(),
                |i: int| digit_char(digits@[digits@.len() - 1 - i] as int),
            ));
        }
    } else {
        while m > 0
            invariant
                forall|t: int| 0 <= t < digits@.len() ==> digits@[t] < 10,
                ({
                    let revd = Seq::new(
                        digits@.len(),
                        |i: int| digit_char(digits@[digits@.len() - 1 - i] as int),
                    );
                    if m == 0 {
                        dec_digits(n as int) =~= revd
                    } else {
                        dec_digits(n as int) =~= dec_digits(m as int) + revd
                    }
                }),
            decreases m,
        {
            let ghost old_digits = digits@;
            let ghost old_m = m as int;
            digits.push(m % 10);
            m = m / 10;
            proof {
                let revd_old = Seq::new(
                    old_digits.len(),
                    |i: int| digit_char(old_digits[old_digits.len() - 1 - i] as int),
                );
                let revd = Seq::new(
                    digits@.len(),
                    |i: int| digit_char(digits@[digits@.len() - 1 - i] as int),
                );
                if old_m < 10 {
                    assert(dec_digits(old_m) == seq![digit_char(old_m)]);
                    assert(dec_digits(old_m) + revd_old =~= revd);
                } else {
                    assert(dec_digits(old_m) == dec_digits(old_m / 10) + seq![
                        digit_char(old_m % 10),
                    ]);
                    assert((dec_digits(old_m / 10) + seq![digit_char(old_m % 10)]) + revd_old
                        =~= dec_digits(old_m / 10) + revd);
                }
            }
        }
    }
    let mut t: usize = 0;
    let ghost revd = Seq::new(
        digits@.len(),
        |i: int| digit_char(digits@[digits@.len() - 1 - i] as int),
    );
    while t < digits.len()
        invariant
            t <= digits@.len(),
            out@ == old(out)@ + revd.subrange(0, t as int),
        decreases digits@.len() - t,
    {
        let d = digits[digits.len() - 1 - t];
        out.append(digit_str(d));
        t = t + 1;
        proof {
            assert(old(out)@ + revd.subrange(0, t - 1) + seq![
                digit_char(digits@[digits@.len() - (t - 1) - 1] as int),
            ] =~= old(out)@ + revd.subrange(0, t as int));
        }
    }
    proof {
        assert(revd.subrange(0, revd.len() as int) =~= revd);
        assert(old(out)@ + revd =~= old(out)@ + dec_digits(n as int));
    }
}

/// Append the decimal rendering of `n`, sign included, to `out`.
fn append_i32(out: &mut String, n: i32)
    ensures
        final(out)@ == old(out)@ + dec_str(n as int),
{
    proof {
        reveal_strlit("-");
    }
    if n < 0 {
        let m: u32 = #[verifier::truncate] ((-(n as i64)) as u32);
        proof {
            assert(m as int == -(n as int));
        }
        out.append("-");
        append_u32(out, m);
        proof {
            assert(old(out)@ + seq!['-'] + dec_digits(m as int) =~= old(out)@ + dec_str(n as int));
        }
    } else {
        append_u32(out, n as u32);
    }
}

/// Whether `c` is a decimal digit.
pub open spec fn is_digit(c: char) -> bool {
    '0' <= c && c <= '9'
}

/// The value of a digit character.
pub open spec fn digit_of(c: char) -> int {
    c as int - 48
}

/// The value of a digit string, most significant first.
pub open spec fn digits_val(s: Seq<char>) -> int
    decreases s.len(),
{
    if s.len() == 0 {
        0
    } else {
        digits_val(s.subrange(0, s.len() - 1)) * 10 + digit_of(s[s.len() - 1])
    }
}

/// The digit part of a signed number: what follows one leading sign.
pub open spec fn num_digits_part(s: Seq<char>) -> Seq<char> {
    if s.len() > 0 && (s[0] == '-' || s[0] == '+') {
        s.subrange(1, s.len() as int)
    } else {
        s
    }
}

/// Whether every character of `s` is a decimal digit.
pub open spec fn all_digits(s: Seq<char>) -> bool {
    forall|i: int| 0 <= i < s.len() ==> is_digit(#[trigger] s[i])
}

/// Reading of a signed decimal number: an optional sign, then one or more
/// digits, with the value within `i32`'s range; anything else is rejected.
pub open spec fn parse_i32_spec(s: Seq<char>) -> Option<int> {
    let digits = num_digits_part(s);
    if digits.len() < 1 || !all_digits(digits) {
        Option::None
    } else {
        let v = if s.len() > 0 && s[0] == '-' {
            -digits_val(digits)
        } else {
            digits_val(digits)
        };
        if -2147483648 <= v <= 2147483647 {
            Option::Some(v)
        } else {
            Option::None
        }
    }
}

proof fn lemma_digits_val_nonneg(s: Seq<char>)
    requires
        all_digits(s),
    ensures
        digits_val(s) >= 0,
    decreases s.len(),
{
    if s.len() > 0 {
        let p = s.subrange(0, s.len() - 1);
        assert forall|t: int| 0 <= t < p.len() implies is_digit(#[trigger] p[t]) by {
            assert(p[t] == s[t]);
        }
        lemma_digits_val_nonneg(p);
        assert(is_digit(s[s.len() - 1]));
    }
}

/// A digit string's value only grows as digits are appended.
proof fn lemma_digits_val_prefix(s: Seq<char>, k: int)
    requires
        all_digits(s),
        0 <= k <= s.len(),
    ensures
        digits_val(s.subrange(0, k)) <= digits_val(s),
    decreases s.len() - k,
{
    if k == s.len() {
        assert(s.subrange(0, k) =~= s);
    } else {
        let p = s.subrange(0, k);
        let q = s.subrange(0, k + 1);
        assert(q.subrange(0, k) =~= p);
        assert(q[k] == s[k]);
        assert forall|t: int| 0 <= t < p.len() implies is_digit(#[trigger] p[t]) by {
            assert(p[t] == s[t]);
        }
        lemma_digits_val_nonneg(p);
        assert(is_digit(s[k]));
        assert(digit_of(s[k]) >= 0);
        assert(digits_val(q) == digits_val(p) * 10 + digit_of(s[k]));
        lemma_digits_val_prefix(s, k + 1);
    }
}

/// Parse a signed decimal `i32`, exactly as [`parse_i32_spec`] reads it.
#[verifier::loop_isolation(false)]
pub fn parse_i32(s: &str) -> (r: Option<i32>)
    ensures
        match r {
            Option::Some(v) => parse_i32_spec(s@) == Option::Some(v as int),
            Option::None => parse_i32_spec(s@) is None,
        },
{
    let len = s.unicode_len();
    let mut start: usize = 0;
    let mut negative = false;
    if len > 0 {
        let c0 = s.get_char(0);
        if c0 == '-' {
            negative = true;
            start = 1;
        } else if c0 == '+' {
            start = 1;
        }
    }
    let ghost digits = num_digits_part(s@);
    proof {
        assert(digits =~= s@.subrange(start as int, len as int));
    }
    if len - start < 1 {
        return None;
    }
    let mut acc: i64 = 0;
    let mut i: usize = start;
    while i < len
        invariant
            start <= i <= len,
            acc == digits_val(s@.subrange(start as int, i as int)),
            0 <= acc <= 2147483648,
            forall|t: int| start <= t < i ==> is_digit(s@[t]),
        decreases len - i,
    {
        let c = s.get_char(i);
        if !(c >= '0' && c <= '9') {
            proof {
                assert(digits[i - start as int] == s@[i as int]);
                assert(!all_digits(digits));
            }
            return None;
        }
        let d: u32 = (c as u32) - 48;
        proof {
            assert(s@.subrange(start as int, i + 1).subrange(0, i - start as int) =~= s@.subrange(
                start as int,
                i as int,
            ));
            assert(s@.subrange(start as int, i + 1)[i - start as int] == s@[i as int]);
        }
        acc = acc * 10 + (d as i64);
        i = i + 1;
        if acc > 2147483648 {
            // Any later characters either grow the value further out of
            // range or break the all-digits requirement; both reject.
            proof {
                let prefix = s@.subrange(start as int, i as int);
                if all_digits(digits) {
                    assert(prefix =~= digits.subrange(0, i - start as int));
                    lemma_digits_val_prefix(digits, i - start as int);
                }
            }
            return None;
        }
    }
    proof {
        assert forall|t: int| 0 <= t < digits.len() implies is_digit(#[trigger] digits[t]) by {
            assert(digits[t] == s@[start + t]);
        }
        assert(all_digits(digits));
        assert(acc == digits_val(digits));
    }
    if negative {
        Some(#[verifier::truncate] ((-acc) as i32))
    } else {
        if acc > 2147483647 {
            return None;
        }
        Some(#[verifier::truncate] (acc as i32))
    }
}


/// Reading of a login token `username#id`: the name before the last `#` and
/// the decimal id after it.
pub open spec fn parse_token_spec(t: Seq<char>) -> Option<(Seq<char>, int)> {
    let hp = crate::image_processor::rfind_char(t, '#');
    if hp < 0 {
        Option::None
    } else {
        match parse_i32_spec(t.subrange(hp + 1, t.len() as int)) {
            Option::None => Option::None,
            Option::Some(v) => Option::Some((t.subrange(0, hp), v)),
        }
    }
}

/// A logged-in user, as the session cookie carries it.
#[derive(Debug)]
pub struct User {
    pub id: i32,
    pub username: String,
}

impl User {
    pub fn id(&self) -> (r: i32)
        ensures
            r == self.id,
    {
        self.id
    }

    /// The session token naming this user: `username#id`.
    pub fn token_str(&self) -> (r: String)
        ensures
            r@ == self.username@ + seq!['#'] + dec_str(self.id as int),
    {
        proof {
            reveal_strlit("#");
        }
        let mut out = self.username.clone();
        out.append("#");
        append_i32(&mut out, self.id);
        proof {
            assert(out@ =~= self.username@ + seq!['#'] + dec_str(self.id as int));
        }
        out
    }

    /// Split a session token into its username and id, exactly as
    /// [`parse_token_spec`] reads it; a token without `#` or with an
    /// unreadable id fails the login.
    pub fn parse_token(token: &str) -> (r: Result<(String, i32), DropmuttError>)
        ensures
            match r {
                Ok(p) => parse_token_spec(token@) == Option::Some((p.0@, p.1 as int)),
                Err(e) => e == DropmuttError::Login && parse_token_spec(token@) is None,
            },
    {
        let len = token.unicode_len();
        let h = crate::image_processor::scan_last_char(token, len, '#');
        if h == 0 {
            return Err(DropmuttError::Login);
        }
        let uname = token.substring_char(0, h - 1).to_owned();
        let digits = token.substring_char(h, len);
        match parse_i32(digits) {
            Some(v) => Ok((uname, v)),
            None => Err(DropmuttError::Login),
        }
    }
}

/// What an outside password check returns for a password and a stored hash:
/// whether they match, or nothing for a malformed hash. The salt lives
/// inside the hash, so the answer depends on the two strings alone.
pub uninterp spec fn bcrypt_verify_of(password: Seq<char>, hash: Seq<char>) -> Option<bool>;

/// Relies on `bcrypt::verify`: whether the password matches the hash, a
/// deterministic function of the two; a malformed hash is an error.
#[verifier::external_body]
fn bcrypt_check(password: &str, hash: &str) -> (r: Result<bool, DropmuttError>)
    ensures
        match r {
            Ok(b) => bcrypt_verify_of(password@, hash@) == Option::Some(b),
            Err(e) => e == DropmuttError::Bcrypt && bcrypt_verify_of(password@, hash@) is None,
        },
{
    bcrypt::verify(password, hash).map_err(|_| DropmuttError::Bcrypt)
}

/// Relies on `bcrypt::hash` with the default cost: a freshly salted hash of
/// 60 characters that verifies the hashed password, since `bcrypt::verify`
/// re-derives the salt and cost from the hash itself. The salt is drawn anew
/// each call, so nothing more is assumed of the hash's text.
#[verifier::external_body]
fn bcrypt_hash(password: &str) -> (r: Result<String, DropmuttError>)
    ensures
        r matches Ok(h) ==> h@.len() == 60 && bcrypt_verify_of(password@, h@) == Option::Some(
            true,
        ),
        r matches Err(e) ==> e == DropmuttError::Bcrypt,
{
    bcrypt::hash(password, bcrypt::DEFAULT_COST).map_err(|_| DropmuttError::Bcrypt)
}

/// A user row as the credential store hands it back.
pub struct QueriedUser {
    pub id: i32,
    pub username: String,
    pub password: String,
}

impl QueriedUser {
    /// Check a password against this user's stored hash: the user on a
    /// match, `Login` on a mismatch, `Bcrypt` on a malformed hash.
    pub fn verify(self, password: &str) -> (r: Result<User, DropmuttError>)
        ensures
            match r {
                Ok(u) => bcrypt_verify_of(password@, self.password@) == Option::Some(true)
                    && u.id == self.id && u.username@ == self.username@,
                Err(e) => (e == DropmuttError::Login && bcrypt_verify_of(password@, self.password@)
                    == Option::Some(false)) || (e == DropmuttError::Bcrypt && bcrypt_verify_of(
                    password@,
                    self.password@,
                ) is None),
            },
    {
        match bcrypt_check(password, self.password.as_str()) {
            Ok(true) => Ok(User { id: self.id, username: self.username }),
            Ok(false) => Err(DropmuttError::Login),
            Err(e) => Err(e),
        }
    }
}

/// A user row about to be created, its password already hashed.
pub struct NewUser {
    pub username: String,
    pub password: String,
}

impl NewUser {
    /// Hash the password and carry the username over; the stored hash is 60
    /// characters and verifies the given password. Only the hashing backend
    /// itself can fail here.
    pub fn new(username: String, password: String) -> (r: Result<NewUser, DropmuttError>)
        ensures
            match r {
                Ok(u) => u.username@ == username@ && u.password@.len() == 60 && bcrypt_verify_of(
                    password@,
                    u.password@,
                ) == Option::Some(true),
                Err(e) => e == DropmuttError::Bcrypt,
            },
    {
        match bcrypt_hash(password.as_str()) {
            Ok(h) => Ok(NewUser { username, password: h }),
            Err(e) => Err(e),
        }
    }
}

/// A stored file's row: its id and its relative path.
pub struct File {
    pub id: i32,
    pub file_path: String,
}

impl File {
    pub fn id(&self) -> (r: i32)
        ensures
            r == self.id,
    {
        self.id
    }

    /// The stored relative path.
    pub fn path(&self) -> (r: &str)
        ensures
            r@ == self.file_path@,
    {
        self.file_path.as_str()
    }
}

/// A file row about to be inserted.
pub struct NewFile {
    pub file_path: String,
}

impl NewFile {
    pub fn new(file_path: String) -> (r: NewFile)
        ensures
            r.file_path@ == file_path@,
    {
        NewFile { file_path }
    }
}

/// A gallery row.
pub struct Gallery {
    pub id: i32,
    pub name: String,
    pub nsfw: bool,
}

impl Gallery {
    pub fn id(&self) -> (r: i32)
        ensures
            r == self.id,
    {
        self.id
    }

    pub fn name(&self) -> (r: &str)
        ensures
            r@ == self.name@,
    {
        self.name.as_str()
    }

    pub fn nsfw(&self) -> (r: bool)
        ensures
            r == self.nsfw,
    {
        self.nsfw
    }
}

/// A gallery row about to be inserted.
pub struct NewGallery {
    pub name: String,
    pub nsfw: bool,
}

impl NewGallery {
    pub fn new(name: String, nsfw: bool) -> (r: NewGallery)
        ensures
            r.name@ == name@,
            r.nsfw == nsfw,
    {
        NewGallery { name, nsfw }
    }
}

/// An image row.
pub struct Image {
    pub id: i32,
    pub uploaded_by: i32,
}

impl Image {
    pub fn id(&self) -> (r: i32)
        ensures
            r == self.id,
    {
        self.id
    }

    pub fn uploaded_by(&self) -> (r: i32)
        ensures
            r == self.uploaded_by,
    {
        self.uploaded_by
    }
}

/// A gallery-membership row.
pub struct GalleryImage {
    pub id: i32,
    pub gallery_id: i32,
    pub image_id: i32,
}

impl GalleryImage {
    pub fn id(&self) -> (r: i32)
        ensures
            r == self.id,
    {
        self.id
    }

    pub fn gallery_id(&self) -> (r: i32)
        ensures
            r == self.gallery_id,
    {
        self.gallery_id
    }

    pub fn image_id(&self) -> (r: i32)
        ensures
            r == self.image_id,
    {
        self.image_id
    }
}

/// A membership row about to be inserted, tying an image to a gallery.
pub struct NewGalleryImage {
    pub gallery_id: i32,
    pub image_id: i32,
}

impl NewGalleryImage {
    pub fn new(gallery: &Gallery, image: &Image) -> (r: NewGalleryImage)
        ensures
            r.gallery_id == gallery.id,
            r.image_id == image.id,
    {
        NewGalleryImage { gallery_id: gallery.id, image_id: image.id }
    }
}

/// One derivative's row: which image, which file, what pixel size.
pub struct ImageFile {
    pub id: i32,
    pub image_id: i32,
    pub file_id: i32,
    pub width: i32,
    pub height: i32,
}

impl ImageFile {
    pub fn id(&self) -> (r: i32)
        ensures
            r == self.id,
    {
        self.id
    }

    pub fn image_id(&self) -> (r: i32)
        ensures
            r == self.image_id,
    {
        self.image_id
    }

    pub fn file_id(&self) -> (r: i32)
        ensures
            r == self.file_id,
    {
        self.file_id
    }

    pub fn width(&self) -> (r: i32)
        ensures
            r == self.width,
    {
        self.width
    }

    pub fn height(&self) -> (r: i32)
        ensures
            r == self.height,
    {
        self.height
    }
}

/// A derivative row about to be inserted.
pub struct NewImageFile {
    pub image_id: i32,
    pub file_id: i32,
    pub width: i32,
    pub height: i32,
}

impl NewImageFile {
    pub fn new(image: &Image, file: &File, width: i32, height: i32) -> (r: NewImageFile)
        ensures
            r.image_id == image.id,
            r.file_id == file.id,
            r.width == width,
            r.height == height,
    {
        NewImageFile { image_id: image.id, file_id: file.id, width, height }
    }
}

/// An uploaded image awaiting its derivative ladder.
pub struct UnprocessedImage {
    pub id: i32,
    pub uploaded_by: i32,
    pub image_file: i32,
    pub gallery_id: i32,
    pub alternate_text: String,
    pub description: String,
}

impl UnprocessedImage {
    pub fn id(&self) -> (r: i32)
        ensures
            r == self.id,
    {
        self.id
    }

    pub fn uploaded_by(&self) -> (r: i32)
        ensures
            r == self.uploaded_by,
    {
        self.uploaded_by
    }

    pub fn image_file(&self) -> (r: i32)
        ensures
            r == self.image_file,
    {
        self.image_file
    }

    pub fn gallery_id(&self) -> (r: i32)
        ensures
            r == self.gallery_id,
    {
        self.gallery_id
    }

    pub fn alternate_text(&self) -> (r: &str)
        ensures
            r@ == self.alternate_text@,
    {
        self.alternate_text.as_str()
    }

    pub fn description(&self) -> (r: &str)
        ensures
            r@ == self.description@,
    {
        self.description.as_str()
    }
}

/// An upload row about to be inserted.
pub struct NewUnprocessedImage {
    pub uploaded_by: i32,
    pub image_file: i32,
    pub gallery_id: i32,
    pub alternate_text: String,
    pub description: String,
}

impl NewUnprocessedImage {
    pub fn new(
        user: &User,
        file: &File,
        gallery: &Gallery,
        alternate_text: String,
        description: String,
    ) -> (r: NewUnprocessedImage)
        ensures
            r.uploaded_by == user.id,
            r.image_file == file.id,
            r.gallery_id == gallery.id,
            r.alternate_text@ == alternate_text@,
            r.description@ == description@,
    {
        NewUnprocessedImage {
            uploaded_by: user.id,
            image_file: file.id,
            gallery_id: gallery.id,
            alternate_text,
            description,
        }
    }
}

/// An image row about to be inserted once processing is done. The original
/// fills both texts from the upload's description.
pub struct NewImage {
    pub uploaded_by: i32,
    pub description: String,
    pub alternate_text: String,
}

impl NewImage {
    pub fn new(ui: &UnprocessedImage) -> (r: NewImage)
        ensures
            r.uploaded_by == ui.uploaded_by,
            r.description@ == ui.description@,
            r.alternate_text@ == ui.description@,
    {
        NewImage {
            uploaded_by: ui.uploaded_by,
            description: ui.description.clone(),
            alternate_text: ui.description.clone(),
        }
    }
}


/// Lexicographic order on character sequences, by code point.
pub open spec fn seq_lt(a: Seq<char>, b: Seq<char>) -> bool
    decreases a.len(),
{
    if a.len() == 0 {
        b.len() > 0
    } else if b.len() == 0 {
        false
    } else if a[0] != b[0] {
        a[0] < b[0]
    } else {
        seq_lt(a.subrange(1, a.len() as int), b.subrange(1, b.len() as int))
    }
}

/// The order is decided at the first differing position, or by length when
/// one string is a prefix of the other.
pub proof fn lemma_seq_lt_eval(a: Seq<char>, b: Seq<char>, i: int)
    requires
        0 <= i <= a.len(),
        i <= b.len(),
        forall|t: int| 0 <= t < i ==> a[t] == b[t],
        (i < a.len() && i < b.len()) ==> a[i] != b[i],
    ensures
        seq_lt(a, b) == if i < a.len() && i < b.len() {
            a[i] < b[i]
        } else {
            a.len() < b.len()
        },
    decreases a.len(),
{
    if a.len() == 0 || b.len() == 0 {
    } else if i == 0 {
    } else {
        assert(a[0] == b[0]);
        let a1 = a.subrange(1, a.len() as int);
        let b1 = b.subrange(1, b.len() as int);
        assert forall|t: int| 0 <= t < i - 1 implies a1[t] == b1[t] by {
            assert(a1[t] == a[t + 1]);
            assert(b1[t] == b[t + 1]);
        }
        if i - 1 < a1.len() && i - 1 < b1.len() {
            assert(a1[i - 1] == a[i]);
            assert(b1[i - 1] == b[i]);
        }
        lemma_seq_lt_eval(a1, b1, i - 1);
    }
}

/// Whether `a` orders strictly before `b`, character for character.
#[verifier::loop_isolation(false)]
pub fn str_lt(a: &str, b: &str) -> (r: bool)
    ensures
        r == seq_lt(a@, b@),
{
    let la = a.unicode_len();
    let lb = b.unicode_len();
    let mut i: usize = 0;
    while i < la && i < lb
        invariant
            i <= la,
            i <= lb,
            forall|t: int| 0 <= t < i ==> a@[t] == b@[t],
        decreases la - i,
    {
        let ca = a.get_char(i);
        let cb = b.get_char(i);
        if ca != cb {
            proof {
                lemma_seq_lt_eval(a@, b@, i as int);
            }
            return ca < cb;
        }
        i = i + 1;
    }
    proof {
        lemma_seq_lt_eval(a@, b@, i as int);
    }
    la < lb
}

/// Order on grouping keys: id first, then description, then alternate text.
pub open spec fn key_lt(a: (int, Seq<char>, Seq<char>), b: (int, Seq<char>, Seq<char>)) -> bool {
    a.0 < b.0 || (a.0 == b.0 && (seq_lt(a.1, b.1) || (a.1 == b.1 && seq_lt(a.2, b.2))))
}

/// Place one row's file into the key-ordered groups: a present key takes the
/// file at its group's end; an absent key opens a new group at its ordered
/// position.
pub open spec fn insert_row(
    groups: Seq<((int, Seq<char>, Seq<char>), Seq<(Seq<char>, int, int)>)>,
    key: (int, Seq<char>, Seq<char>),
    f: (Seq<char>, int, int),
) -> Seq<((int, Seq<char>, Seq<char>), Seq<(Seq<char>, int, int)>)>
    decreases groups.len(),
{
    if groups.len() == 0 {
        seq![(key, seq![f])]
    } else if groups[0].0 == key {
        groups.update(0, (groups[0].0, groups[0].1.push(f)))
    } else if key_lt(key, groups[0].0) {
        seq![(key, seq![f])] + groups
    } else {
        seq![groups[0]] + insert_row(groups.subrange(1, groups.len() as int), key, f)
    }
}

/// Fold all rows into key-ordered groups, left to right.
pub open spec fn fold_rows(
    groups: Seq<((int, Seq<char>, Seq<char>), Seq<(Seq<char>, int, int)>)>,
    rows: Seq<((int, Seq<char>, Seq<char>), (Seq<char>, int, int))>,
) -> Seq<((int, Seq<char>, Seq<char>), Seq<(Seq<char>, int, int)>)>
    decreases rows.len(),
{
    if rows.len() == 0 {
        groups
    } else {
        fold_rows(
            insert_row(groups, rows[0].0, rows[0].1),
            rows.subrange(1, rows.len() as int),
        )
    }
}

/// The consolidated listing: rows grouped by key in ascending key order,
/// each group's files in arrival order, and the groups then emitted in
/// descending key order (most recent image first).
pub open spec fn consolidate_spec(
    rows: Seq<((int, Seq<char>, Seq<char>), (Seq<char>, int, int))>,
) -> Seq<(int, Seq<char>, Seq<char>, Seq<(Seq<char>, int, int)>)> {
    let g = fold_rows(Seq::empty(), rows);
    Seq::new(
        g.len(),
        |i: int|
            if 0 <= i < g.len() {
                (g[g.len() - 1 - i].0.0, g[g.len() - 1 - i].0.1, g[g.len() - 1 - i].0.2, g[g.len()
                    - 1 - i].1)
            } else {
                (0, Seq::empty(), Seq::empty(), Seq::empty())
            },
    )
}

/// Model of one query row.
pub open spec fn rows_view(rows: Seq<(i32, String, String, i32, i32, String)>) -> Seq<
    ((int, Seq<char>, Seq<char>), (Seq<char>, int, int)),
> {
    Seq::new(
        rows.len(),
        |i: int|
            if 0 <= i < rows.len() {
                (
                    (rows[i].0 as int, rows[i].1@, rows[i].2@),
                    (rows[i].5@, rows[i].3 as int, rows[i].4 as int),
                )
            } else {
                ((0, Seq::empty(), Seq::empty()), (Seq::empty(), 0, 0))
            },
    )
}

/// Model of a list of sized files.
pub open spec fn fws_list_view(fs: Seq<FilesWithSizes>) -> Seq<(Seq<char>, int, int)> {
    Seq::new(
        fs.len(),
        |i: int|
            if 0 <= i < fs.len() {
                (fs[i].path@, fs[i].width as int, fs[i].height as int)
            } else {
                (Seq::empty(), 0, 0)
            },
    )
}

/// Model of the working groups.
pub open spec fn groups_view(
    gs: Seq<((i32, String, String), Vec<FilesWithSizes>)>,
) -> Seq<((int, Seq<char>, Seq<char>), Seq<(Seq<char>, int, int)>)> {
    Seq::new(
        gs.len(),
        |i: int|
            if 0 <= i < gs.len() {
                ((gs[i].0.0 as int, gs[i].0.1@, gs[i].0.2@), fws_list_view(gs[i].1@))
            } else {
                ((0, Seq::empty(), Seq::empty()), Seq::empty())
            },
    )
}

/// Model of the consolidated listing.
pub open spec fn iw_list_view(ws: Seq<ImageWithFiles>) -> Seq<
    (int, Seq<char>, Seq<char>, Seq<(Seq<char>, int, int)>),
> {
    Seq::new(
        ws.len(),
        |i: int|
            if 0 <= i < ws.len() {
                (ws[i].id as int, ws[i].description@, ws[i].alternate_text@, fws_list_view(
                    ws[i].files@,
                ))
            } else {
                (0, Seq::empty(), Seq::empty(), Seq::empty())
            },
    )
}

/// One stored file of a listed image, with its pixel size.
pub struct FilesWithSizes {
    pub path: String,
    pub width: i32,
    pub height: i32,
}

/// One listed image with all its stored files.
pub struct ImageWithFiles {
    pub id: i32,
    pub description: String,
    pub alternate_text: String,
    pub files: Vec<FilesWithSizes>,
}

/// Place one row into the working groups, exactly as [`insert_row`] does.
#[verifier::loop_isolation(false)]
fn insert_group(
    groups: &mut Vec<((i32, String, String), Vec<FilesWithSizes>)>,
    key: (i32, String, String),
    f: FilesWithSizes,
)
    ensures
        groups_view(final(groups)@) == insert_row(
            groups_view(old(groups)@),
            (key.0 as int, key.1@, key.2@),
            (f.path@, f.width as int, f.height as int),
        ),
{
    let ghost gv = groups_view(old(groups)@);
    let ghost kv = (key.0 as int, key.1@, key.2@);
    let ghost fv = (f.path@, f.width as int, f.height as int);
    proof {
        assert(gv.subrange(0, 0) =~= Seq::empty());
        assert(gv.subrange(0, gv.len() as int) =~= gv);
    }
    let mut j: usize = 0;
    while j < groups.len()
        invariant
            j <= groups@.len(),
            groups@ == old(groups)@,
            insert_row(gv, kv, fv) == gv.subrange(0, j as int) + insert_row(
                gv.subrange(j as int, gv.len() as int),
                kv,
                fv,
            ),
        decreases groups@.len() - j,
    {
        let ghost suffix = gv.subrange(j as int, gv.len() as int);
        proof {
            assert(suffix[0] == gv[j as int]);
            assert(suffix.subrange(1, suffix.len() as int) =~= gv.subrange(
                j + 1,
                gv.len() as int,
            ));
        }
        let keq = groups[j].0.0 == key.0 && str_eq(groups[j].0.1.as_str(), key.1.as_str())
            && str_eq(groups[j].0.2.as_str(), key.2.as_str());
        if keq {
            proof {
                assert(suffix[0].0 == kv);
            }
            let mut entry = groups.remove(j);
            entry.1.push(f);
            groups.insert(j, entry);
            proof {
                assert(fws_list_view(entry.1@) =~= gv[j as int].1.push(fv));
                assert(groups_view(groups@) =~= gv.update(
                    j as int,
                    (gv[j as int].0, gv[j as int].1.push(fv)),
                ));
                assert(insert_row(suffix, kv, fv) =~= suffix.update(
                    0,
                    (suffix[0].0, suffix[0].1.push(fv)),
                ));
                assert(gv.subrange(0, j as int) + insert_row(suffix, kv, fv) =~= gv.update(
                    j as int,
                    (gv[j as int].0, gv[j as int].1.push(fv)),
                ));
            }
            return;
        }
        let klt = key.0 < groups[j].0.0 || (key.0 == groups[j].0.0 && (str_lt(
            key.1.as_str(),
            groups[j].0.1.as_str(),
        ) || (str_eq(key.1.as_str(), groups[j].0.1.as_str()) && str_lt(
            key.2.as_str(),
            groups[j].0.2.as_str(),
        ))));
        if klt {
            proof {
                assert(suffix[0].0 != kv || key_lt(kv, suffix[0].0));
                assert(key_lt(kv, suffix[0].0));
            }
            let mut nf: Vec<FilesWithSizes> = Vec::new();
            nf.push(f);
            groups.insert(j, (key, nf));
            proof {
                assert(fws_list_view(nf@) =~= seq![fv]);
                assert(groups_view(groups@) =~= gv.subrange(0, j as int) + (seq![(kv, seq![fv])]
                    + suffix));
            }
            return;
        }
        proof {
            assert(suffix[0].0 != kv);
            assert(!key_lt(kv, suffix[0].0));
            assert(insert_row(suffix, kv, fv) == seq![suffix[0]] + insert_row(
                suffix.subrange(1, suffix.len() as int),
                kv,
                fv,
            ));
            assert(gv.subrange(0, j as int) + (seq![suffix[0]] + insert_row(
                gv.subrange(j + 1, gv.len() as int),
                kv,
                fv,
            )) =~= gv.subrange(0, j + 1) + insert_row(gv.subrange(j + 1, gv.len() as int), kv, fv));
        }
        j = j + 1;
    }
    let mut nf: Vec<FilesWithSizes> = Vec::new();
    nf.push(f);
    groups.push((key, nf));
    proof {
        assert(gv.subrange(j as int, gv.len() as int).len() == 0);
        assert(fws_list_view(nf@) =~= seq![fv]);
        assert(groups_view(groups@) =~= gv.subrange(0, j as int) + seq![(kv, seq![fv])]);
    }
}

impl ImageWithFiles {
    /// Group the joined query rows into one listing entry per image, files
    /// in arrival order within each image, images in descending key order.
    #[verifier::loop_isolation(false)]
    pub fn consolidate(results: Vec<(i32, String, String, i32, i32, String)>) -> (r: Vec<
        ImageWithFiles,
    >)
        ensures
            iw_list_view(r@) == consolidate_spec(rows_view(results@)),
    {
        let ghost rows = rows_view(results@);
        let mut groups: Vec<((i32, String, String), Vec<FilesWithSizes>)> = Vec::new();
        proof {
            assert(rows.subrange(0, rows.len() as int) =~= rows);
            assert(groups_view(groups@) =~= Seq::empty());
        }
        let mut i: usize = 0;
        while i < results.len()
            invariant
                i <= results@.len(),
                fold_rows(Seq::empty(), rows) == fold_rows(
                    groups_view(groups@),
                    rows.subrange(i as int, rows.len() as int),
                ),
            decreases results@.len() - i,
        {
            let ghost rest = rows.subrange(i as int, rows.len() as int);
            proof {
                assert(rest[0] == rows[i as int]);
                assert(rest.subrange(1, rest.len() as int) =~= rows.subrange(
                    i + 1,
                    rows.len() as int,
                ));
            }
            let key = (results[i].0, results[i].1.clone(), results[i].2.clone());
            let f = FilesWithSizes {
                path: results[i].5.clone(),
                width: results[i].3,
                height: results[i].4,
            };
            insert_group(&mut groups, key, f);
            i = i + 1;
        }
        proof {
            assert(rows.subrange(i as int, rows.len() as int).len() == 0);
        }
        let ghost final_groups = groups_view(groups@);
        let mut out: Vec<ImageWithFiles> = Vec::new();
        proof {
            assert(groups_view(groups@) =~= final_groups.subrange(0, groups@.len() as int));
        }
        loop
            invariant
                out@.len() + groups@.len() == final_groups.len(),
                groups_view(groups@) == final_groups.subrange(0, groups@.len() as int),
                forall|t: int|
                    0 <= t < out@.len() ==> iw_list_view(out@)[t] == (
                        final_groups[final_groups.len() - 1 - t].0.0,
                        final_groups[final_groups.len() - 1 - t].0.1,
                        final_groups[final_groups.len() - 1 - t].0.2,
                        final_groups[final_groups.len() - 1 - t].1,
                    ),
            decreases groups@.len(),
        {
            let ghost before = groups_view(groups@);
            match groups.pop() {
                Some(entry) => {
                    proof {
                        assert(before[groups@.len() as int] == (
                            (entry.0.0 as int, entry.0.1@, entry.0.2@),
                            fws_list_view(entry.1@),
                        ));
                        assert(groups_view(groups@) =~= final_groups.subrange(
                            0,
                            groups@.len() as int,
                        ));
                    }
                    let ghost old_out = out@;
                    out.push(
                        ImageWithFiles {
                            id: entry.0.0,
                            description: entry.0.1,
                            alternate_text: entry.0.2,
                            files: entry.1,
                        },
                    );
                    proof {
                        assert forall|t: int| 0 <= t < out@.len() implies iw_list_view(out@)[t]
                            == (
                            final_groups[final_groups.len() - 1 - t].0.0,
                            final_groups[final_groups.len() - 1 - t].0.1,
                            final_groups[final_groups.len() - 1 - t].0.2,
                            final_groups[final_groups.len() - 1 - t].1,
                        ) by {
                            if t < old_out.len() {
                                assert(iw_list_view(out@)[t] == iw_list_view(old_out)[t]);
                            }
                        }
                    }
                },
                None => {
                    break ;
                },
            }
        }
        proof {
            assert(iw_list_view(out@) =~= consolidate_spec(rows));
        }
        out
    }
}

} // verus!
