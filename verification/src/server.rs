//! Serving saved pictures over HTTP: `GET /{name}` answers with the file
//! `../static/images/{name}.png` as an attachment.
use vstd::prelude::*;
use crate::picture::{png_file_name, png_file_name_of, image_dir, image_path_spec, is_url_safe_symbol, link_prefix, qr_link_spec};

verus! {

/// Where `PathBuf::from("../static/images")` ends up after `push(file)` on
/// Unix: an absolute `file` replaces the directory, any other is joined to
/// it with a separator.
pub open spec fn served_path_spec(file: Seq<char>) -> Seq<char> {
    if file.len() > 0 && file[0] == '/' {
        file
    } else {
        image_dir() + file
    }
}

/// The `Content-Disposition` header for a download called `file`.
pub open spec fn disposition_spec(file: Seq<char>) -> Seq<char> {
    "attachment; filename=\""@ + file + "\""@
}

/// The file that a request for `name` reads: its file name and its path.
pub fn served_file(name: &str) -> (r: (String, String))
    ensures
        r.0@ == png_file_name(name@),
        r.1@ == served_path_spec(png_file_name(name@)),
{
    let file = png_file_name_of(name);
    let path = if file.unicode_len() > 0 && file.as_str().get_char(0) == '/' {
        file.clone()
    } else {
        let mut p = String::from_str("../static/images/");
        p.append(file.as_str());
        p
    };
    (file, path)
}

/// What reading a requested picture came to.
pub enum FileRead {
    /// No file at the path.
    Missing,
    /// The file is there but could not be opened.
    OpenFailed,
    /// The file was opened but reading it failed.
    ReadFailed,
    /// The whole file.
    Contents(Vec<u8>),
}

/// The answer to a picture request.
pub enum PictureResponse {
    /// 404.
    NotFound,
    /// 500.
    InternalError,
    /// 200, with the two headers and the file as the body.
    Found { content_type: String, content_disposition: String, body: Vec<u8> },
}

/// The answer to a request whose file is `file` and whose reading came to
/// `read`: a missing file or one that cannot be opened is not found, a failed
/// read is an internal error, and a file read whole goes out as a PNG
/// attachment under its name.
pub fn picture_response(file: &str, read: FileRead) -> (r: PictureResponse)
    ensures
        match read {
            FileRead::Missing => r is NotFound,
            FileRead::OpenFailed => r is NotFound,
            FileRead::ReadFailed => r is InternalError,
            FileRead::Contents(bytes) => match r {
                PictureResponse::Found { content_type, content_disposition, body } => {
                    &&& content_type@ == "image/png"@
                    &&& content_disposition@ == disposition_spec(file@)
                    &&& body@ == bytes@
                },
                _ => false,
            },
        },
{
    match read {
        FileRead::Missing => PictureResponse::NotFound,
        FileRead::OpenFailed => PictureResponse::NotFound,
        FileRead::ReadFailed => PictureResponse::InternalError,
        FileRead::Contents(bytes) => {
            let mut d = String::from_str("attachment; filename=\"");
            d.append(file);
            d.append("\"");
            PictureResponse::Found {
                content_type: String::from_str("image/png"),
                content_disposition: d,
                body: bytes,
            }
        },
    }
}

/// A picture's QR link ends in the picture's name, and a request for a name
/// made of URL-safe symbols (as every picture name is) reads the very file
/// that the picture was saved to: scanning the code fetches the picture.
pub proof fn lemma_link_serves_saved_picture(id: Seq<char>)
    requires
        forall|i: int| 0 <= i < id.len() ==> is_url_safe_symbol(#[trigger] id[i]),
    ensures
        qr_link_spec(id) == link_prefix() + id,
        qr_link_spec(id).skip(link_prefix().len() as int) == id,
        served_path_spec(png_file_name(id)) == image_path_spec(id),
{
    assert(qr_link_spec(id).skip(link_prefix().len() as int) =~= id);
    let f = png_file_name(id);
    if id.len() > 0 {
        assert(f[0] == id[0]);
        assert(is_url_safe_symbol(id[0]));
    } else {
        reveal_strlit(".png");
        assert(f[0] == '.');
    }
}

} // verus!
