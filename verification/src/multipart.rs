//! Multipart form decoding. The wire grammar is multer's, behind trusted
//! items: the parser is declared as an opaque type, and what it will hand
//! out is named as a function of the boundary and the buffered body. The
//! drain — walking the fields, classifying each as a file or a text field,
//! and building the binder's maps — is verified.

use vstd::prelude::*;
use futures_util::FutureExt;
use crate::binding::{FormFiles, UploadFile};
use crate::params::{ParamMap, assoc_set};

verus! {

#[verifier::external_type_specification]
#[verifier::external_body]
pub struct ExMultipart<'r>(multer::Multipart<'r>);

/// The boundary parameter of a `multipart/form-data` content type, if the
/// content type carries one: a function of the text alone.
pub uninterp spec fn boundary_of(content_type: Seq<char>) -> Option<Seq<char>>;

/// The fields the parser hands out for a boundary and a fully buffered
/// body, in order: name, optional filename, optional content type, the
/// file bytes, and the text. A function of boundary and body alone.
pub uninterp spec fn multipart_fields(boundary: Seq<char>, body: Seq<u8>) -> Seq<
    (Seq<char>, Option<Seq<char>>, Option<Seq<char>>, Seq<u8>, Seq<char>),
>;

/// The fields a parser value will still hand out.
pub uninterp spec fn multipart_contents(m: multer::Multipart<'static>) -> Seq<
    (Seq<char>, Option<Seq<char>>, Option<Seq<char>>, Seq<u8>, Seq<char>),
>;

pub open spec fn opt_str_view(o: Option<String>) -> Option<Seq<char>> {
    match o {
        Some(s) => Some(s@),
        None => None,
    }
}

/// The view of one decoded field.
pub open spec fn field_view(f: (String, Option<String>, Option<String>, Vec<u8>, String)) -> (
    Seq<char>,
    Option<Seq<char>>,
    Option<Seq<char>>,
    Seq<u8>,
    Seq<char>,
) {
    (f.0@, opt_str_view(f.1), opt_str_view(f.2), f.3@, f.4@)
}

/// Relies on multer::parse_boundary: whether a content type carries a
/// boundary, and which, depends on the text alone.
#[verifier::external_body]
fn content_type_boundary(content_type: &str) -> (r: Option<String>)
    ensures
        match r {
            Some(b) => boundary_of(content_type@) == Some(b@),
            None => boundary_of(content_type@) is None,
        },
{
    multer::parse_boundary(content_type).ok()
}

/// Relies on multer::Multipart::new over one fully buffered chunk: what
/// the parser will hand out is a function of the boundary and the bytes.
#[verifier::external_body]
fn new_multipart(boundary: String, body: &Vec<u8>) -> (r: multer::Multipart<'static>)
    ensures
        multipart_contents(r) == multipart_fields(boundary@, body@),
{
    let chunk: Result<bytes::Bytes, std::convert::Infallible> = Ok(bytes::Bytes::from(
        body.clone(),
    ));
    let stream = futures_util::stream::iter(std::iter::once(chunk));
    multer::Multipart::new(stream, boundary)
}

/// Relies on multer's next_field, Field::bytes and Field::text: over a
/// fully buffered body the parser never waits, and each call hands out the
/// next field; a parse error ends the fields. The filename, content type
/// and name are read before the field's payload is taken.
#[verifier::external_body]
fn next_multipart_field(m: &mut multer::Multipart<'static>) -> (r: Option<
    (String, Option<String>, Option<String>, Vec<u8>, String),
>)
    ensures
        match r {
            Some(f) => {
                &&& multipart_contents(*old(m)).len() > 0
                &&& field_view(f) == multipart_contents(*old(m))[0]
                &&& multipart_contents(*final(m)) == multipart_contents(*old(m)).drop_first()
            },
            None => multipart_contents(*old(m)).len() == 0 && multipart_contents(*final(m)).len()
                == 0,
        },
{
    let field = match m.next_field().now_or_never() {
        Some(Ok(Some(f))) => f,
        _ => return None,
    };
    let name = field.name().unwrap_or("").to_string();
    let filename = field.file_name().map(str::to_string);
    let ctype = field.content_type().map(|c| c.to_string());
    if filename.is_some() {
        let data = field.bytes().now_or_never().and_then(Result::ok).unwrap_or_default();
        Some((name, filename, ctype, data.to_vec(), String::new()))
    } else {
        let text = field.text().now_or_never().and_then(Result::ok).unwrap_or_default();
        Some((name, filename, ctype, Vec::new(), text))
    }
}

/// The upload entry a file field leaves: its filename, its content type
/// (defaulted to `application/octet-stream`), and its bytes.
pub open spec fn file_entry(
    f: (Seq<char>, Option<Seq<char>>, Option<Seq<char>>, Seq<u8>, Seq<char>),
) -> (Seq<char>, Seq<char>, Seq<u8>) {
    (
        match f.1 {
            Some(name) => name,
            None => Seq::empty(),
        },
        match f.2 {
            Some(ct) => ct,
            None => "application/octet-stream"@,
        },
        f.3,
    )
}

/// Folding decoded fields into the text-field map: a field without a
/// filename contributes its text, a later field of the same name
/// overwriting an earlier one.
pub open spec fn fold_text_fields(
    acc: Seq<(Seq<char>, Seq<char>)>,
    fields: Seq<(Seq<char>, Option<Seq<char>>, Option<Seq<char>>, Seq<u8>, Seq<char>)>,
) -> Seq<(Seq<char>, Seq<char>)>
    decreases fields.len(),
{
    if fields.len() == 0 {
        acc
    } else {
        let f = fields[0];
        let next = if f.1 is None {
            assoc_set(acc, f.0, f.4)
        } else {
            acc
        };
        fold_text_fields(next, fields.drop_first())
    }
}

/// Folding decoded fields into the file map: a field with a filename
/// contributes its upload entry.
pub open spec fn fold_file_fields(
    acc: Seq<(Seq<char>, (Seq<char>, Seq<char>, Seq<u8>))>,
    fields: Seq<(Seq<char>, Option<Seq<char>>, Option<Seq<char>>, Seq<u8>, Seq<char>)>,
) -> Seq<(Seq<char>, (Seq<char>, Seq<char>, Seq<u8>))>
    decreases fields.len(),
{
    if fields.len() == 0 {
        acc
    } else {
        let f = fields[0];
        let next = if f.1 is Some {
            assoc_set(acc, f.0, file_entry(f))
        } else {
            acc
        };
        fold_file_fields(next, fields.drop_first())
    }
}

/// One decoded multipart field, classified: a file field (it carried a
/// filename) or a text field.
pub enum FieldClass {
    File(UploadFile),
    Text(String),
}

/// Classify a decoded multipart field: a field with a filename is a file
/// upload whose content type defaults to `application/octet-stream`; any
/// other field contributes its text.
pub fn classify_field(
    filename: Option<String>,
    content_type: Option<String>,
    data: Vec<u8>,
    text: String,
) -> (r: FieldClass)
    ensures
        match filename {
            Some(f) => r matches FieldClass::File(u) && u.filename == f && u.data == data
                && u.content_type@ == (match content_type {
                Some(ct) => ct@,
                None => "application/octet-stream"@,
            }),
            None => r matches FieldClass::Text(t) && t == text,
        },
{
    match filename {
        Some(f) => {
            let ct = match content_type {
                Some(ct) => ct,
                None => String::from_str("application/octet-stream"),
            };
            FieldClass::File(UploadFile { filename: f, content_type: ct, data })
        }
        None => FieldClass::Text(text),
    }
}

/// Drain the parser into the two maps, field by field.
fn drain_multipart(
    m: &mut multer::Multipart<'static>,
    form_fields: &mut ParamMap,
    form_files: &mut FormFiles,
)
    requires
        old(form_fields).wf(),
        old(form_files).wf(),
    ensures
        final(form_fields).wf(),
        final(form_files).wf(),
        final(form_fields)@ == fold_text_fields(
            old(form_fields)@,
            multipart_contents(*old(m)),
        ),
        final(form_files)@ == fold_file_fields(old(form_files)@, multipart_contents(*old(m))),
    decreases multipart_contents(*m).len(),
{
    let ghost full = multipart_contents(*m);
    match next_multipart_field(m) {
        None => {
        }
        Some((name, filename, content_type, data, text)) => {
            proof {
                assert(field_view((name, filename, content_type, data, text)) == full[0]);
            }
            let ghost fv = field_view((name, filename, content_type, data, text));
            match classify_field(filename, content_type, data, text) {
                FieldClass::File(file) => {
                    proof {
                        assert(file@ == file_entry(fv));
                    }
                    form_files.insert(name, file);
                }
                FieldClass::Text(text) => {
                    form_fields.insert(name, text);
                }
            }
            drain_multipart(m, form_fields, form_files);
        }
    }
}

/// Decode a multipart body into the binder's maps: each field without a
/// filename leaves its text, each field with one leaves its upload entry;
/// a content type without a boundary leaves the maps unchanged (the
/// degrade-silently rule for best-effort operations).
pub fn parse_multipart(
    content_type: &str,
    body: &Vec<u8>,
    form_fields: &mut ParamMap,
    form_files: &mut FormFiles,
)
    requires
        old(form_fields).wf(),
        old(form_files).wf(),
    ensures
        final(form_fields).wf(),
        final(form_files).wf(),
        match boundary_of(content_type@) {
            Some(b) => {
                &&& final(form_fields)@ == fold_text_fields(
                    old(form_fields)@,
                    multipart_fields(b, body@),
                )
                &&& final(form_files)@ == fold_file_fields(
                    old(form_files)@,
                    multipart_fields(b, body@),
                )
            },
            None => final(form_fields)@ == old(form_fields)@ && final(form_files)@ == old(
                form_files,
            )@,
        },
{
    let boundary = match content_type_boundary(content_type) {
        Some(b) => b,
        None => {
            return ;
        }
    };
    let mut parser = new_multipart(boundary, body);
    drain_multipart(&mut parser, form_fields, form_files);
}

} // verus!
