use vstd::prelude::*;

use vstd::utf8::{valid_utf8, decode_utf8};

use crate::disposition::{disp_attr, name_key, filename_key, parse_content_disposition};
use crate::error::DropmuttError;
use crate::form_value::{
    FormNode,
    FormValue,
    entries_view,
    find_key,
    lemma_first_key_index_is,
    lemma_first_key_index_none,
    lookup_key,
    merge,
    merge_nodes,
    single_node,
    single_pair,
};
use crate::form_value::{build_nodes, lemma_build_nodes_snoc};
use crate::grammar::{parse_field_name, spec_parse_name, NameSeg};
use crate::strutil::{is_prefix, str_eq, str_starts_with};

verus! {

/// How a request body as a whole is submitted.
#[derive(Clone, Copy, Debug, PartialEq, Eq, Structural)]
pub enum PostKind {
    Multipart,
    UrlEncoded,
}

/// Classify a request's declared media type: a `multipart/*` body is decoded
/// part by part, a form-urlencoded body is read whole, anything else is
/// rejected.
pub fn post_kind(mime_type: Option<&str>) -> (r: Result<PostKind, DropmuttError>)
    ensures
        match mime_type {
            Option::Some(m) => r == if is_prefix(m@, "multipart/"@) {
                Ok::<PostKind, DropmuttError>(PostKind::Multipart)
            } else if m@ == "application/x-www-form-urlencoded"@ {
                Ok::<PostKind, DropmuttError>(PostKind::UrlEncoded)
            } else {
                Err::<PostKind, DropmuttError>(DropmuttError::ContentType)
            },
            Option::None => r == Err::<PostKind, DropmuttError>(DropmuttError::ContentType),
        },
{
    match mime_type {
        Some(m) => {
            if str_starts_with(m, "multipart/") {
                Ok(PostKind::Multipart)
            } else if str_eq(m, "application/x-www-form-urlencoded") {
                Ok(PostKind::UrlEncoded)
            } else {
                Err(DropmuttError::ContentType)
            }
        },
        None => Err(DropmuttError::ContentType),
    }
}

/// Most file parts one form may carry.
pub const MAX_FILE_PARTS: u32 = 10;

/// Most text fields one form may carry.
pub const MAX_TEXT_PARTS: u32 = 100;

/// Byte cap on one text field's accumulated body; reaching it fails the
/// field.
pub const MAX_FIELD_BYTES: usize = 80000;

/// A file part durably stored under an allocator-generated relative path.
/// The client-supplied name is kept for display only; the stored path is the
/// only path ever used for filesystem access.
pub struct StoredFile {
    pub original_filename: String,
    pub stored_relative_path: String,
}

/// The three ways one part's content is handled.
#[derive(Clone, Copy, Debug, PartialEq, Eq, Structural)]
pub enum MediaClass {
    /// Binary or image content, streamed to file storage.
    File,
    /// Textual content, accumulated in memory.
    Text,
    /// A nested multipart body whose inner parts run through the same
    /// decoder, so the file and field caps stay global to the request.
    Nested,
    /// Anything else; the part is rejected.
    Unknown,
}

/// Model of a part's `Content-Type` dispatch: images and raw bytes go to
/// file storage, declared text and an absent content type (plain text by
/// default) accumulate in memory, an inner `multipart/*` body recurses.
pub open spec fn media_class_spec(ct: Option<Seq<char>>) -> MediaClass {
    match ct {
        Option::None => MediaClass::Text,
        Option::Some(m) => if is_prefix(m, "multipart/"@) {
            MediaClass::Nested
        } else if is_prefix(m, "image/"@) || m == "application/octet-stream"@ {
            MediaClass::File
        } else if is_prefix(m, "text/"@) || m == "application/x-www-form-urlencoded"@ {
            MediaClass::Text
        } else {
            MediaClass::Unknown
        },
    }
}

/// Dispatch on a part's declared media type.
pub fn media_class(content_type: Option<&str>) -> (r: MediaClass)
    ensures
        r == media_class_spec(ct_view(content_type)),
{
    match content_type {
        None => MediaClass::Text,
        Some(m) => {
            if str_starts_with(m, "multipart/") {
                MediaClass::Nested
            } else if str_starts_with(m, "image/") || str_eq(m, "application/octet-stream") {
                MediaClass::File
            } else if str_starts_with(m, "text/") || str_eq(
                m,
                "application/x-www-form-urlencoded",
            ) {
                MediaClass::Text
            } else {
                MediaClass::Unknown
            }
        },
    }
}

/// Model of an optional string argument.
pub open spec fn ct_view(ct: Option<&str>) -> Option<Seq<char>> {
    match ct {
        Option::Some(s) => Option::Some(s@),
        Option::None => Option::None,
    }
}

/// Model of an optional byte-slice argument.
pub open spec fn cd_view(cd: Option<&[u8]>) -> Option<Seq<u8>> {
    match cd {
        Option::Some(b) => Option::Some(b@),
        Option::None => Option::None,
    }
}

/// Relies on `str::from_utf8`: it returns `Ok` exactly on valid UTF-8 and
/// then yields the decoded characters.
#[verifier::external_body]
fn utf8_to_str(bytes: &[u8]) -> (r: Option<&str>)
    ensures
        match r {
            Option::Some(s) => valid_utf8(bytes@) && s@ == decode_utf8(bytes@),
            Option::None => !valid_utf8(bytes@),
        },
{
    core::str::from_utf8(bytes).ok()
}

/// Relies on `String::from_utf8`: it returns `Ok` exactly on valid UTF-8 and
/// then yields the decoded characters.
#[verifier::external_body]
fn utf8_to_string(bytes: Vec<u8>) -> (r: Result<String, DropmuttError>)
    ensures
        match r {
            Ok(s) => valid_utf8(bytes@) && s@ == decode_utf8(bytes@),
            Err(e) => e == DropmuttError::Utf8 && !valid_utf8(bytes@),
        },
{
    String::from_utf8(bytes).map_err(|_| DropmuttError::Utf8)
}

/// The decoded `Content-Disposition` text of a part, or `None` when the
/// header is absent or not UTF-8.
pub open spec fn disp_text(cd: Option<Seq<u8>>) -> Option<Seq<char>> {
    match cd {
        Option::None => Option::None,
        Option::Some(b) => if valid_utf8(b) {
            Option::Some(decode_utf8(b))
        } else {
            Option::None
        },
    }
}

/// How one part opens, given the running counts and its two headers: either
/// its class with its field name and (for files) client filename, or the
/// error that rejects it.
///
/// Checked in order: a readable `Content-Disposition`, a `name` attribute, a
/// recognized media class, a `filename` for file parts, and the global file
/// and field caps, which fail the eleventh file part and the hundred-first
/// text field.
pub open spec fn begin_part_spec(
    file_count: u32,
    text_count: u32,
    ct: Option<Seq<char>>,
    cd: Option<Seq<u8>>,
) -> Result<(MediaClass, Seq<char>, Seq<char>), DropmuttError> {
    match disp_text(cd) {
        Option::None => Err(DropmuttError::ContentDisposition),
        Option::Some(h) => match disp_attr(h, name_key()) {
            Option::None => Err(DropmuttError::MissingFieldName),
            Option::Some(name) => match media_class_spec(ct) {
                MediaClass::Unknown => Err(DropmuttError::ContentType),
                MediaClass::Nested => Ok((MediaClass::Nested, name, Seq::empty())),
                MediaClass::File => match disp_attr(h, filename_key()) {
                    Option::None => Err(DropmuttError::MissingFilename),
                    Option::Some(fname) => if file_count >= MAX_FILE_PARTS {
                        Err(DropmuttError::FileCount)
                    } else {
                        Ok((MediaClass::File, name, fname))
                    },
                },
                MediaClass::Text => if text_count >= MAX_TEXT_PARTS {
                    Err(DropmuttError::FormCount)
                } else {
                    Ok((MediaClass::Text, name, Seq::empty()))
                },
            },
        },
    }
}

/// An accepted part: its class, its field name, and, for a file part, the
/// client-supplied filename.
#[derive(Debug)]
pub enum PartClass {
    FilePart { name: String, filename: String },
    TextPart { name: String },
    NestedPart { name: String },
}

impl PartClass {
    /// Model of an accepted part, in the shape [`begin_part_spec`] yields.
    pub open spec fn view_triple(&self) -> (MediaClass, Seq<char>, Seq<char>) {
        match self {
            PartClass::FilePart { name, filename } => (MediaClass::File, name@, filename@),
            PartClass::TextPart { name } => (MediaClass::Text, name@, Seq::empty()),
            PartClass::NestedPart { name } => (MediaClass::Nested, name@, Seq::empty()),
        }
    }
}

/// Streaming decoder for one multipart request: classifies each part as it
/// arrives, enforces the global file and field caps mid-stream, and folds
/// completed (name, value) pairs into one form tree.
pub struct MultipartDecoder {
    /// File parts accepted so far.
    pub file_count: u32,
    /// Text fields accepted so far.
    pub text_count: u32,
    /// The form tree built from the pairs completed so far.
    pub form: FormValue,
    /// The files stored so far, in arrival order.
    pub files: Vec<StoredFile>,
    /// The (path, value) pairs completed so far, in arrival order.
    pub history: Ghost<Seq<(Seq<NameSeg>, Seq<char>)>>,
}

impl MultipartDecoder {
    /// The decoder's invariant: its tree is exactly the reconstruction of
    /// every pair completed so far, in arrival order.
    pub open spec fn wf(&self) -> bool {
        self.form@ == build_nodes(self.history@)
    }

    /// A decoder for a fresh request: nothing counted, an empty tree.
    pub fn new() -> (r: MultipartDecoder)
        ensures
            r.file_count == 0,
            r.text_count == 0,
            r.form@ == crate::form_value::FormNode::Empty,
            r.files@.len() == 0,
            r.history@ == Seq::<(Seq<NameSeg>, Seq<char>)>::empty(),
            r.wf(),
    {
        let d = MultipartDecoder {
            file_count: 0,
            text_count: 0,
            form: FormValue::Empty,
            files: Vec::new(),
            history: Ghost(Seq::empty()),
        };
        proof {
            assert(build_nodes(d.history@) == FormNode::Empty);
        }
        d
    }

    /// Open one arriving part: read its `Content-Disposition`, classify its
    /// media type, and charge it against the global caps. On an error the
    /// decoder is unchanged and the part is rejected; the caps reject the
    /// eleventh file part and the hundred-first text field exactly.
    pub fn begin_part(
        &mut self,
        content_type: Option<&str>,
        content_disposition: Option<&[u8]>,
    ) -> (r: Result<PartClass, DropmuttError>)
        ensures
            match r {
                Ok(pc) => {
                    &&& begin_part_spec(
                        old(self).file_count,
                        old(self).text_count,
                        ct_view(content_type),
                        cd_view(content_disposition),
                    ) == Ok::<_, DropmuttError>(pc.view_triple())
                    &&& final(self).file_count as int == if pc.view_triple().0
                        == MediaClass::File {
                        old(self).file_count + 1
                    } else {
                        old(self).file_count as int
                    }
                    &&& final(self).text_count as int == if pc.view_triple().0
                        == MediaClass::Text {
                        old(self).text_count + 1
                    } else {
                        old(self).text_count as int
                    }
                    &&& final(self).form == old(self).form
                    &&& final(self).files == old(self).files
                    &&& final(self).history == old(self).history
                },
                Err(e) => {
                    &&& begin_part_spec(
                        old(self).file_count,
                        old(self).text_count,
                        ct_view(content_type),
                        cd_view(content_disposition),
                    ) == Err::<(MediaClass, Seq<char>, Seq<char>), _>(e)
                    &&& *final(self) == *old(self)
                },
            },
    {
        let header: &[u8] = match content_disposition {
            Some(b) => b,
            None => {
                return Err(DropmuttError::ContentDisposition);
            },
        };
        let text: &str = match utf8_to_str(header) {
            Some(t) => t,
            None => {
                return Err(DropmuttError::ContentDisposition);
            },
        };
        let disp = parse_content_disposition(text);
        let name: String = match disp.name {
            Some(n) => n,
            None => {
                return Err(DropmuttError::MissingFieldName);
            },
        };
        match media_class(content_type) {
            MediaClass::Unknown => Err(DropmuttError::ContentType),
            MediaClass::Nested => Ok(PartClass::NestedPart { name }),
            MediaClass::File => {
                let filename: String = match disp.filename {
                    Some(f) => f,
                    None => {
                        return Err(DropmuttError::MissingFilename);
                    },
                };
                if self.file_count >= MAX_FILE_PARTS {
                    Err(DropmuttError::FileCount)
                } else {
                    self.file_count = self.file_count + 1;
                    Ok(PartClass::FilePart { name, filename })
                }
            },
            MediaClass::Text => {
                if self.text_count >= MAX_TEXT_PARTS {
                    Err(DropmuttError::FormCount)
                } else {
                    self.text_count = self.text_count + 1;
                    Ok(PartClass::TextPart { name })
                }
            },
        }
    }

    /// Complete a text field: parse its name against the bracket grammar and
    /// fold the (path, value) pair into the form tree. A malformed name
    /// rejects the field and leaves the decoder unchanged.
    pub fn finish_text_part(&mut self, name: &str, value: String) -> (r: Result<
        (),
        DropmuttError,
    >)
        requires
            old(self).wf(),
        ensures
            match r {
                Ok(()) => {
                    &&& spec_parse_name(name@) is Some
                    &&& final(self).form@ == merge_nodes(
                        old(self).form@,
                        single_node(spec_parse_name(name@)->Some_0, value@),
                    )
                    &&& final(self).history@ == old(self).history@.push(
                        (spec_parse_name(name@)->Some_0, value@),
                    )
                    &&& final(self).wf()
                    &&& final(self).files == old(self).files
                    &&& final(self).file_count == old(self).file_count
                    &&& final(self).text_count == old(self).text_count
                },
                Err(e) => {
                    &&& e == DropmuttError::InvalidFieldName
                    &&& spec_parse_name(name@) is None
                    &&& *final(self) == *old(self)
                },
            },
    {
        let segments = match parse_field_name(name) {
            Ok(s) => s,
            Err(e) => {
                return Err(e);
            },
        };
        let ghost pair = (crate::grammar::segs_view(segments@), value@);
        let leaf = single_pair(&segments, value);
        let merged = merge(&self.form, &leaf);
        self.form = merged;
        proof {
            lemma_build_nodes_snoc(self.history@, pair);
        }
        self.history = Ghost(self.history@.push(pair));
        Ok(())
    }

    /// Complete a stored file part: record the stored file and fold the
    /// (path, stored-path) pair into the form tree, so the tree names where
    /// each upload landed. A malformed name rejects the part and leaves the
    /// decoder unchanged; the file itself stays on disk either way.
    pub fn finish_file_part(
        &mut self,
        name: &str,
        original_filename: String,
        stored_relative_path: String,
    ) -> (r: Result<(), DropmuttError>)
        requires
            old(self).wf(),
        ensures
            match r {
                Ok(()) => {
                    &&& spec_parse_name(name@) is Some
                    &&& final(self).form@ == merge_nodes(
                        old(self).form@,
                        single_node(spec_parse_name(name@)->Some_0, stored_relative_path@),
                    )
                    &&& final(self).history@ == old(self).history@.push(
                        (spec_parse_name(name@)->Some_0, stored_relative_path@),
                    )
                    &&& final(self).wf()
                    &&& final(self).files@ == old(self).files@.push(
                        (StoredFile { original_filename, stored_relative_path }),
                    )
                    &&& final(self).file_count == old(self).file_count
                    &&& final(self).text_count == old(self).text_count
                },
                Err(e) => {
                    &&& e == DropmuttError::InvalidFieldName
                    &&& spec_parse_name(name@) is None
                    &&& *final(self) == *old(self)
                },
            },
    {
        let segments = match parse_field_name(name) {
            Ok(s) => s,
            Err(e) => {
                return Err(e);
            },
        };
        let ghost pair = (crate::grammar::segs_view(segments@), stored_relative_path@);
        let leaf = single_pair(&segments, stored_relative_path.clone());
        let merged = merge(&self.form, &leaf);
        self.form = merged;
        proof {
            lemma_build_nodes_snoc(self.history@, pair);
        }
        self.history = Ghost(self.history@.push(pair));
        self.files.push(StoredFile { original_filename, stored_relative_path });
        Ok(())
    }

    /// Hand the finished form tree and the stored files to the caller.
    pub fn finish(self) -> (r: (FormValue, Vec<StoredFile>))
        ensures
            r.0 == self.form,
            r.1 == self.files,
            self.wf() ==> r.0@ == build_nodes(self.history@),
    {
        (self.form, self.files)
    }
}

/// In-memory accumulator for one text field's body, capped at
/// [`MAX_FIELD_BYTES`].
pub struct TextFieldBuffer {
    pub bytes: Vec<u8>,
}

impl TextFieldBuffer {
    /// An empty accumulator.
    pub fn new() -> (r: TextFieldBuffer)
        ensures
            r.bytes@.len() == 0,
    {
        TextFieldBuffer { bytes: Vec::new() }
    }

    /// Append one arriving chunk. The field fails with `FormSize` the moment
    /// its accumulated body would reach the cap, and the buffer then keeps
    /// only what it held before; one byte under the cap is still accepted.
    pub fn push_chunk(&mut self, chunk: &[u8]) -> (r: Result<(), DropmuttError>)
        ensures
            match r {
                Ok(()) => {
                    &&& old(self).bytes@.len() + chunk@.len() < MAX_FIELD_BYTES
                    &&& final(self).bytes@ == old(self).bytes@ + chunk@
                },
                Err(e) => {
                    &&& e == DropmuttError::FormSize
                    &&& old(self).bytes@.len() + chunk@.len() >= MAX_FIELD_BYTES
                    &&& *final(self) == *old(self)
                },
            },
    {
        if self.bytes.len() >= MAX_FIELD_BYTES || chunk.len() >= MAX_FIELD_BYTES - self.bytes.len()
        {
            return Err(DropmuttError::FormSize);
        }
        proof {
            assert(old(self).bytes@ + chunk@.subrange(0, 0) =~= old(self).bytes@);
        }
        let mut i: usize = 0;
        while i < chunk.len()
            invariant
                i <= chunk@.len(),
                self.bytes@ == old(self).bytes@ + chunk@.subrange(0, i as int),
            decreases chunk@.len() - i,
        {
            let b = chunk[i];
            self.bytes.push(b);
            i = i + 1;
        }
        proof {
            assert(old(self).bytes@ + chunk@.subrange(0, chunk@.len() as int) =~= old(self).bytes@
                + chunk@);
        }
        Ok(())
    }

    /// Decode the accumulated body as UTF-8: the field's value exactly when
    /// the bytes are valid, `Utf8` otherwise.
    pub fn finish(self) -> (r: Result<String, DropmuttError>)
        ensures
            match r {
                Ok(s) => valid_utf8(self.bytes@) && s@ == decode_utf8(self.bytes@),
                Err(e) => e == DropmuttError::Utf8 && !valid_utf8(self.bytes@),
            },
    {
        utf8_to_string(self.bytes)
    }
}


/// A `Scalar` value at key `k` of a mapping-shaped form, if there is one.
pub open spec fn scalar_at(m: FormNode, k: Seq<char>) -> Option<Seq<char>> {
    if m is Mapping {
        match lookup_key(m->Mapping_0, k) {
            Option::Some(FormNode::Scalar(s)) => Option::Some(s),
            _ => Option::None,
        }
    } else {
        Option::None
    }
}

/// Index of the first stored file under `path`, or `-1`.
pub open spec fn file_index(files: Seq<StoredFile>, path: Seq<char>) -> int
    decreases files.len(),
{
    if files.len() == 0 {
        -1
    } else if files[0].stored_relative_path@ == path {
        0
    } else {
        let r = file_index(files.subrange(1, files.len() as int), path);
        if r < 0 {
            -1
        } else {
            r + 1
        }
    }
}

/// The first matching stored file is at the least matching index.
proof fn lemma_file_index_is(files: Seq<StoredFile>, path: Seq<char>, j: int)
    requires
        0 <= j < files.len(),
        files[j].stored_relative_path@ == path,
        forall|t: int| 0 <= t < j ==> files[t].stored_relative_path@ != path,
    ensures
        file_index(files, path) == j,
    decreases files.len(),
{
    if j > 0 {
        lemma_file_index_is(files.subrange(1, files.len() as int), path, j - 1);
    }
}

proof fn lemma_file_index_none(files: Seq<StoredFile>, path: Seq<char>)
    requires
        forall|t: int| 0 <= t < files.len() ==> files[t].stored_relative_path@ != path,
    ensures
        file_index(files, path) == -1,
    decreases files.len(),
{
    if files.len() != 0 {
        lemma_file_index_none(files.subrange(1, files.len() as int), path);
    }
}

/// First stored file under `path`, if any.
fn find_file(files: &Vec<StoredFile>, path: &str) -> (r: Option<usize>)
    ensures
        match r {
            Option::Some(j) => j < files@.len() && files@[j as int].stored_relative_path@ == path@
                && forall|t: int| 0 <= t < j ==> files@[t].stored_relative_path@ != path@,
            Option::None => forall|t: int|
                0 <= t < files@.len() ==> files@[t].stored_relative_path@ != path@,
        },
{
    let mut j: usize = 0;
    while j < files.len()
        invariant
            j <= files@.len(),
            forall|t: int| 0 <= t < j ==> files@[t].stored_relative_path@ != path@,
        decreases files@.len() - j,
    {
        if str_eq(files[j].stored_relative_path.as_str(), path) {
            return Some(j);
        }
        j = j + 1;
    }
    None
}

/// The typed image-upload form the client submits: one stored file plus its
/// describing text fields.
pub struct ImageForm {
    /// The client-supplied filename and the stored relative path.
    pub file_upload: (String, String),
    pub description: String,
    pub alternate_text: String,
    pub gallery_name: String,
}

impl ImageForm {
    /// Read the typed form out of a decoded form tree and the stored files:
    /// the `file-upload` scalar names the stored path, whose record supplies
    /// the client filename; the three text fields come over verbatim. `None`
    /// exactly when a field is missing, not a scalar, or names no stored
    /// file.
    pub fn from_value(v: &FormValue, files: &Vec<StoredFile>) -> (r: Option<ImageForm>)
        ensures
            match r {
                Option::Some(f) => {
                    &&& scalar_at(v@, "file-upload"@) == Option::Some(f.file_upload.1@)
                    &&& file_index(files@, f.file_upload.1@) >= 0
                    &&& files@[file_index(files@, f.file_upload.1@)].original_filename@
                        == f.file_upload.0@
                    &&& scalar_at(v@, "description"@) == Option::Some(f.description@)
                    &&& scalar_at(v@, "alternate-text"@) == Option::Some(f.alternate_text@)
                    &&& scalar_at(v@, "gallery-name"@) == Option::Some(f.gallery_name@)
                },
                Option::None => {
                    ||| scalar_at(v@, "file-upload"@) is None
                    ||| scalar_at(v@, "file-upload"@) matches Option::Some(p) && file_index(
                        files@,
                        p,
                    ) < 0
                    ||| scalar_at(v@, "description"@) is None
                    ||| scalar_at(v@, "alternate-text"@) is None
                    ||| scalar_at(v@, "gallery-name"@) is None
                },
            },
    {
        let path = match Self::scalar_field(v, "file-upload") {
            Some(p) => p,
            None => {
                return None;
            },
        };
        let fi = match find_file(files, path.as_str()) {
            Some(j) => j,
            None => {
                proof {
                    lemma_file_index_none(files@, path@);
                }
                return None;
            },
        };
        proof {
            lemma_file_index_is(files@, path@, fi as int);
        }
        let original = files[fi].original_filename.clone();
        let description = match Self::scalar_field(v, "description") {
            Some(p) => p,
            None => {
                return None;
            },
        };
        let alternate_text = match Self::scalar_field(v, "alternate-text") {
            Some(p) => p,
            None => {
                return None;
            },
        };
        let gallery_name = match Self::scalar_field(v, "gallery-name") {
            Some(p) => p,
            None => {
                return None;
            },
        };
        Some(
            ImageForm {
                file_upload: (original, path),
                description,
                alternate_text,
                gallery_name,
            },
        )
    }

    /// The `Scalar` under `key` at the top level of `v`, if there is one.
    fn scalar_field(v: &FormValue, key: &str) -> (r: Option<String>)
        ensures
            match r {
                Option::Some(s) => scalar_at(v@, key@) == Option::Some(s@),
                Option::None => scalar_at(v@, key@) is None,
            },
    {
        match v {
            FormValue::Mapping(entries) => {
                let k = key.to_owned();
                match find_key(entries, &k) {
                    Some(j) => {
                        proof {
                            lemma_first_key_index_is(entries_view(entries@), key@, j as int);
                            assert(v@->Mapping_0 =~= entries_view(entries@));
                        }
                        match &entries[j].1 {
                            FormValue::Scalar(s) => Some(s.clone()),
                            _ => None,
                        }
                    },
                    None => {
                        proof {
                            lemma_first_key_index_none(entries_view(entries@), key@);
                            assert(v@->Mapping_0 =~= entries_view(entries@));
                        }
                        None
                    },
                }
            },
            _ => None,
        }
    }
}

} // verus!
