//! Named static resources and the MIME types inferred from their names.

use vstd::hash_map::StringHashMap;
use vstd::prelude::*;
use vstd::string::*;
use vstd::utf8::{decode_utf8, encode_utf8, valid_utf8};
use crate::text::{chars_of, same_text, string_of, utf8_string};

verus! {

broadcast use {
    vstd::utf8::encode_utf8_valid_utf8,
    vstd::utf8::encode_utf8_decode_utf8,
    vstd::utf8::decode_utf8_encode_utf8,
};

/// The MIME types the resource table distinguishes.
#[derive(Clone, Copy, Debug, PartialEq, Eq, Structural)]
pub enum MimeType {
    Text,
    Html,
    Css,
    Js,
    Png,
    Jpg,
    OctetStream,
}

impl MimeType {
    /// The type that a file extension (with its leading dot) stands for.
    pub open spec fn of_extension(extension: Seq<char>) -> MimeType {
        if extension == ".txt"@ {
            MimeType::Text
        } else if extension == ".html"@ {
            MimeType::Html
        } else if extension == ".js"@ {
            MimeType::Js
        } else if extension == ".jpg"@ || extension == ".jpeg"@ {
            MimeType::Jpg
        } else if extension == ".png"@ {
            MimeType::Png
        } else if extension == ".css"@ {
            MimeType::Css
        } else {
            MimeType::OctetStream
        }
    }

    /// The name of the type, as it is sent to a client.
    pub open spec fn name(self) -> Seq<char> {
        match self {
            MimeType::Text => "text/plain"@,
            MimeType::Html => "text/html"@,
            MimeType::Css => "text/css"@,
            MimeType::Js => "application/javascript"@,
            MimeType::Png => "image/png"@,
            MimeType::Jpg => "image/jpg"@,
            MimeType::OctetStream => "application/octet-stream"@,
        }
    }

    /// Whether content of this type is kept as raw bytes rather than as text.
    pub open spec fn binary(self) -> bool {
        self == MimeType::Png || self == MimeType::Jpg || self == MimeType::OctetStream
    }

    /// The type that a file extension (with its leading dot) stands for.
    pub fn from_extension(extension: &str) -> (r: MimeType)
        ensures
            r == Self::of_extension(extension@),
    {
        if same_text(extension, ".txt") {
            MimeType::Text
        } else if same_text(extension, ".html") {
            MimeType::Html
        } else if same_text(extension, ".js") {
            MimeType::Js
        } else if same_text(extension, ".jpg") || same_text(extension, ".jpeg") {
            MimeType::Jpg
        } else if same_text(extension, ".png") {
            MimeType::Png
        } else if same_text(extension, ".css") {
            MimeType::Css
        } else {
            MimeType::OctetStream
        }
    }

    /// The name of the type.
    pub fn to_string(&self) -> (r: String)
        ensures
            r@ == self.name(),
    {
        match self {
            MimeType::Text => "text/plain",
            MimeType::Html => "text/html",
            MimeType::Css => "text/css",
            MimeType::Js => "application/javascript",
            MimeType::Png => "image/png",
            MimeType::Jpg => "image/jpg",
            MimeType::OctetStream => "application/octet-stream",
        }.to_owned()
    }

    /// Whether content of this type is kept as raw bytes.
    pub fn is_binary(&self) -> (r: bool)
        ensures
            r == self.binary(),
    {
        match self {
            MimeType::Text => false,
            MimeType::Html => false,
            MimeType::Css => false,
            MimeType::Js => false,
            MimeType::Png => true,
            MimeType::Jpg => true,
            MimeType::OctetStream => true,
        }
    }
}

/// The position of the last `c` in `s`, or -1 if it holds none.
pub open spec fn last_index(s: Seq<char>, c: char) -> int
    decreases s.len(),
{
    if s.len() == 0 {
        -1
    } else if s.last() == c {
        s.len() - 1
    } else {
        last_index(s.drop_last(), c)
    }
}

/// The type inferred from a resource name: that of the extension that
/// starts at the last dot, and `OctetStream` for a name without a dot.
pub open spec fn inferred_mime(name: Seq<char>) -> MimeType {
    let k = last_index(name, '.');
    if 0 <= k <= name.len() {
        MimeType::of_extension(name.skip(k))
    } else {
        MimeType::OctetStream
    }
}

/// The content of a resource: raw bytes, or text.
pub enum ResourceData {
    Binary(Vec<u8>),
    String(String),
}

/// A resource: its content and the name of its MIME type.
pub struct ResourceFile {
    pub mime_type: String,
    pub data: ResourceData,
}

impl ResourceFile {
    /// The content as bytes; text stands for its UTF-8 encoding.
    pub open spec fn bytes(&self) -> Seq<u8> {
        match self.data {
            ResourceData::Binary(bin) => bin@,
            ResourceData::String(text) => encode_utf8(text@),
        }
    }

    /// Whether the content is kept as text.
    pub open spec fn is_text(&self) -> bool {
        self.data is String
    }

    /// A resource of the given type. Content of a text type must be UTF-8.
    pub fn new(mime_type: MimeType, data: Vec<u8>) -> (r: Self)
        requires
            !mime_type.binary() ==> valid_utf8(data@),
        ensures
            r.mime_type@ == mime_type.name(),
            r.bytes() == data@,
            r.is_text() == !mime_type.binary(),
    {
        let resource_data = if mime_type.is_binary() {
            ResourceData::Binary(data)
        } else {
            match utf8_string(data) {
                Some(text) => ResourceData::String(text),
                None => {
                    proof {
                        assert(false);
                    }
                    ResourceData::String(String::new())
                },
            }
        };
        Self { mime_type: mime_type.to_string(), data: resource_data }
    }

    /// The content as bytes.
    pub fn to_binary(&self) -> (r: Vec<u8>)
        ensures
            r@ == self.bytes(),
    {
        match &self.data {
            ResourceData::Binary(bin) => vstd::slice::slice_to_vec(bin.as_slice()),
            ResourceData::String(text) => vstd::slice::slice_to_vec(text.as_str().as_bytes()),
        }
    }

    /// The content as text. Binary content must be UTF-8.
    pub fn to_string(&self) -> (r: String)
        requires
            valid_utf8(self.bytes()),
        ensures
            r@ == decode_utf8(self.bytes()),
    {
        match &self.data {
            ResourceData::Binary(bin) => {
                match utf8_string(vstd::slice::slice_to_vec(bin.as_slice())) {
                    Some(text) => text,
                    None => {
                        proof {
                            assert(false);
                        }
                        String::new()
                    },
                }
            },
            ResourceData::String(text) => text.clone(),
        }
    }
}

/// The table of resources, by name. Registering a name again replaces what
/// the name stood for.
pub struct ResourceManager {
    pub resource_files: StringHashMap<ResourceFile>,
}

impl View for ResourceManager {
    type V = Map<Seq<char>, ResourceFile>;

    open spec fn view(&self) -> Map<Seq<char>, ResourceFile> {
        self.resource_files@
    }
}

impl ResourceManager {
    /// An empty table.
    pub fn new() -> (r: Self)
        ensures
            r@ == Map::<Seq<char>, ResourceFile>::empty(),
    {
        Self { resource_files: StringHashMap::new() }
    }

    /// Registers `data` under `name`, with the type inferred from the name.
    /// Content of a text type must be UTF-8.
    pub fn register(&mut self, name: &str, data: &[u8])
        requires
            !inferred_mime(name@).binary() ==> valid_utf8(data@),
        ensures
            final(self)@.contains_key(name@),
            final(self)@[name@].bytes() == data@,
            final(self)@[name@].mime_type@ == inferred_mime(name@).name(),
            final(self)@[name@].is_text() == !inferred_mime(name@).binary(),
            final(self)@.remove(name@) == old(self)@.remove(name@),
    {
        let file = ResourceFile::new(Self::infer_mime(name), vstd::slice::slice_to_vec(data));
        self.resource_files.insert(name.to_owned(), file);
        assert(self@.remove(name@) =~= old(self)@.remove(name@));
    }

    /// The resource registered under `name`.
    pub fn find_resource(&self, name: &str) -> (r: Option<&ResourceFile>)
        ensures
            match r {
                Some(file) => self@.contains_key(name@) && *file == self@[name@],
                None => !self@.contains_key(name@),
            },
    {
        self.resource_files.get(name)
    }

    /// The type inferred from a resource name.
    pub fn infer_mime(name: &str) -> (r: MimeType)
        ensures
            r == inferred_mime(name@),
    {
        let chars = chars_of(name);
        let n = chars.len();
        let mut i: usize = n;
        assert(chars@.take(n as int) =~= chars@);
        while i > 0 && chars[i - 1] != '.'
            invariant
                i <= n,
                n == chars@.len(),
                last_index(chars@, '.') == last_index(chars@.take(i as int), '.'),
            decreases i,
        {
            assert(chars@.take(i as int).drop_last() =~= chars@.take(i - 1));
            i -= 1;
        }
        if i == 0 {
            MimeType::OctetStream
        } else {
            let extension = string_of(chars.as_slice(), i - 1, n);
            assert(extension@ =~= chars@.skip(i - 1));
            MimeType::from_extension(extension.as_str())
        }
    }
}

} // verus!
