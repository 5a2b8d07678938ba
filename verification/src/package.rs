//! Relocatable model packages: the file names a model and its resources
//! receive when they are copied out of a project, and the checks that keep
//! them inside the export.
use vstd::prelude::*;
use vstd::string::*;
use std::collections::BTreeMap;
use crate::text::{decimal, push_decimal, starts_with, str_equal};

verus! {

/// A packaged glTF model. Generated flat filenames only; the document is
/// always `model.gltf`.
pub struct ModelPackage {
    pub files: BTreeMap<String, Vec<u8>>,
}

/// Model bytes and dependency names kept for runtime export. Unlike import
/// conversion, this keeps material/surface identities and baked-lighting
/// fingerprints unchanged.
pub struct SourcePackage {
    pub primary: String,
    pub files: BTreeMap<String, Vec<u8>>,
}

#[derive(Clone, Copy, Debug, PartialEq, Eq, Structural)]
pub enum PackageError {
    /// The model's file name is not UTF-8.
    NameNotUtf8,
    /// A dependency lies outside the model's folder.
    Escapes,
    /// The glTF document did not parse or validate.
    InvalidGltf,
}

/// One component of a relative path.
#[derive(Clone, Copy, Debug, PartialEq, Eq, Structural)]
pub enum PathPart {
    Prefix,
    RootDir,
    CurDir,
    ParentDir,
    Normal,
}

/// Only plain names and `.` keep a dependency inside the export.
pub open spec fn stays_inside(parts: Seq<PathPart>) -> bool {
    forall|i: int| 0 <= i < parts.len() ==> #[trigger] parts[i] == PathPart::Normal || parts[i] == PathPart::CurDir
}

/// A path with Windows separators turned into `/`.
pub open spec fn forward_slashes(path: Seq<char>) -> Seq<char> {
    path.map_values(|c: char| if c == '\\' { '/' } else { c })
}

/// A packaged dependency name is its relative path with every backslash
/// turned into a slash and every other character kept in place.
pub proof fn lemma_forward_slashes(path: Seq<char>)
    ensures
        forward_slashes(path).len() == path.len(),
        forall|i: int| 0 <= i < path.len() ==> (#[trigger] forward_slashes(path)[i]) == (if path[i] == '\\' { '/' } else { path[i] }),
        !forward_slashes(path).contains('\\'),
{
}

/// The name a dependency gets inside the package, from its path relative to
/// the model's folder and that path's components.
pub fn dependency_name(relative: &str, parts: &Vec<PathPart>) -> (r: Result<String, PackageError>)
    ensures
        match r {
            Ok(name) => stays_inside(parts@) && name@ == forward_slashes(relative@),
            Err(e) => !stays_inside(parts@) && e == PackageError::Escapes,
        },
{
    let mut i: usize = 0;
    while i < parts.len()
        invariant
            i <= parts@.len(),
            forall|j: int| 0 <= j < i ==> #[trigger] parts@[j] == PathPart::Normal || parts@[j] == PathPart::CurDir,
        decreases parts@.len() - i,
    {
        if parts[i] != PathPart::Normal && parts[i] != PathPart::CurDir {
            return Err(PackageError::Escapes);
        }
        i = i + 1;
    }
    let n = relative.unicode_len();
    let mut name = String::new();
    let mut start: usize = 0;
    let mut k: usize = 0;
    while k < n
        invariant
            n == relative@.len(),
            start <= k <= n,
            name@ == forward_slashes(relative@.take(start as int)),
            forall|j: int| start <= j < k ==> relative@[j] != '\\',
        decreases n - k,
    {
        if relative.get_char(k) == '\\' {
            let piece = relative.substring_char(start, k);
            name.append(piece);
            name.append("/");
            proof {
                reveal_strlit("/");
                assert(forward_slashes(relative@.take(k + 1)) =~= forward_slashes(relative@.take(start as int)) + piece@ + "/"@);
            }
            start = k + 1;
        }
        k = k + 1;
    }
    let rest = relative.substring_char(start, n);
    name.append(rest);
    assert(forward_slashes(relative@) =~= forward_slashes(relative@.take(start as int)) + rest@);
    Ok(name)
}

/// The extension an image gets: JPEG when its MIME type or its data URI says so.
pub open spec fn image_extension_of(mime: Seq<char>, uri: Seq<char>) -> Seq<char> {
    if mime == "image/jpeg"@ || (uri.len() >= "data:image/jpeg;"@.len() && uri.take("data:image/jpeg;"@.len() as int) == "data:image/jpeg;"@) {
        "jpg"@
    } else {
        "png"@
    }
}

/// The file extension of a packaged image, given its MIME type (declared or
/// guessed from the URI) and its URI.
pub fn image_extension(mime: &str, uri: &str) -> (r: &'static str)
    ensures
        r@ == image_extension_of(mime@, uri@),
{
    if str_equal(mime, "image/jpeg") || starts_with(uri, "data:image/jpeg;") {
        "jpg"
    } else {
        "png"
    }
}

/// A resource of the model: a buffer or an image, with the key it is found by
/// (its URI, or `glb:bin` for the binary chunk).
#[derive(Clone, Debug, PartialEq)]
pub enum Resource {
    /// A buffer; `chunk` tells that it has no URI and is the GLB binary chunk.
    Buffer { index: usize, key: String, chunk: bool },
    Image { index: usize, key: String, extension: String },
}

pub open spec fn resource_key(r: Resource) -> Seq<char> {
    match r {
        Resource::Buffer { key, .. } => key@,
        Resource::Image { key, .. } => key@,
    }
}

/// The file name a resource receives when it is the first with its key:
/// `buffer-{index}.bin` or `image-{index}.{extension}`.
pub open spec fn fresh_name(r: Resource) -> Seq<char> {
    match r {
        Resource::Buffer { index, .. } => "buffer-"@ + decimal(index as nat) + ".bin"@,
        Resource::Image { index, extension, .. } => "image-"@ + decimal(index as nat) + "."@ + extension@,
    }
}

/// Index of the first resource before `i` with the same key as resource `i`, or `i`.
pub open spec fn first_with_key(res: Seq<Resource>, i: int, j: int) -> int
    decreases i - j,
{
    if j >= i || j < 0 {
        i
    } else if resource_key(res[j]) == resource_key(res[i]) {
        j
    } else {
        first_with_key(res, i, j + 1)
    }
}

proof fn lemma_first_with_key_from(res: Seq<Resource>, i: int, j: int)
    requires
        0 <= j <= i < res.len(),
    ensures
        j <= first_with_key(res, i, j) <= i,
        resource_key(res[first_with_key(res, i, j)]) == resource_key(res[i]),
        forall|k: int| j <= k < first_with_key(res, i, j) ==> resource_key(#[trigger] res[k]) != resource_key(res[i]),
    decreases i - j,
{
    if j < i && resource_key(res[j]) != resource_key(res[i]) {
        lemma_first_with_key_from(res, i, j + 1);
    }
}

/// The resource whose file resource `i` shares is the earliest one with the
/// same key: it has that key, and no resource before it has.
pub proof fn lemma_first_with_key(res: Seq<Resource>, i: int)
    requires
        0 <= i < res.len(),
    ensures
        0 <= first_with_key(res, i, 0) <= i,
        resource_key(res[first_with_key(res, i, 0)]) == resource_key(res[i]),
        forall|k: int| 0 <= k < first_with_key(res, i, 0) ==> resource_key(#[trigger] res[k]) != resource_key(res[i]),
{
    lemma_first_with_key_from(res, i, 0);
}

/// Where a resource goes: the file it is written to, and whether this
/// resource brings the file's bytes (the first one with its key does).
pub struct Placement {
    pub name: String,
    pub fresh: bool,
}

/// Resources sharing a key share one file, named after the first of them.
pub fn place_resources(res: &Vec<Resource>) -> (r: Vec<Placement>)
    ensures
        r@.len() == res@.len(),
        forall|i: int| 0 <= i < r@.len() ==> {
            let first = first_with_key(res@, i, 0);
            &&& (#[trigger] r@[i]).fresh == (first == i)
            &&& r@[i].name@ == fresh_name(res@[first])
        },
{
    let mut out: Vec<Placement> = Vec::new();
    let mut i: usize = 0;
    while i < res.len()
        invariant
            i <= res@.len(),
            out@.len() == i,
            forall|x: int| 0 <= x < i ==> {
                let first = first_with_key(res@, x, 0);
                &&& (#[trigger] out@[x]).fresh == (first == x)
                &&& out@[x].name@ == fresh_name(res@[first])
            },
        decreases res@.len() - i,
    {
        let key_i = match &res[i] {
            Resource::Buffer { key, .. } => key.as_str(),
            Resource::Image { key, .. } => key.as_str(),
        };
        assert(key_i@ == resource_key(res@[i as int]));
        let mut j: usize = 0;
        let mut found = false;
        while j < i && !found
            invariant
                j <= i,
                i < res@.len(),
                key_i@ == resource_key(res@[i as int]),
                first_with_key(res@, i as int, j as int) == first_with_key(res@, i as int, 0),
                found ==> j < i && resource_key(res@[j as int]) == resource_key(res@[i as int]),
            decreases i - j + if found { 0int } else { 1int },
        {
            let key_j = match &res[j] {
                Resource::Buffer { key, .. } => key.as_str(),
                Resource::Image { key, .. } => key.as_str(),
            };
            if str_equal(key_j, key_i) {
                found = true;
            } else {
                j = j + 1;
            }
        }
        let first = j;
        assert(first as int == first_with_key(res@, i as int, 0));
        let mut name = String::new();
        match &res[first] {
            Resource::Buffer { index, .. } => {
                name.append("buffer-");
                push_decimal(&mut name, *index as u64);
                name.append(".bin");
            },
            Resource::Image { index, extension, .. } => {
                name.append("image-");
                push_decimal(&mut name, *index as u64);
                name.append(".");
                name.append(extension.as_str());
            },
        }
        assert(name@ =~= fresh_name(res@[first as int]));
        out.push(Placement { name, fresh: first == i });
        i = i + 1;
    }
    out
}

/// The buffer key: its URI, or `glb:bin` for the binary chunk.
pub open spec fn buffer_key(source: Option<Seq<char>>) -> Seq<char> {
    match source {
        Some(uri) => uri,
        None => "glb:bin"@,
    }
}

/// The images drawn from URIs among the first `k`, in order, each with its
/// extension; images stored in buffer views stay where they are.
pub open spec fn image_resources(images: Seq<Option<(Seq<char>, Seq<char>)>>, k: int) -> Seq<(int, Seq<char>, Seq<char>)>
    decreases k,
{
    if k <= 0 {
        Seq::empty()
    } else {
        let rest = image_resources(images, k - 1);
        match images[k - 1] {
            Some(src) => rest.push((k - 1, src.0, image_extension_of(src.1, src.0))),
            None => rest,
        }
    }
}

pub open spec fn resource_view(r: Resource) -> (bool, int, Seq<char>, Seq<char>, bool) {
    match r {
        Resource::Buffer { index, key, chunk } => (true, index as int, key@, Seq::empty(), chunk),
        Resource::Image { index, key, extension } => (false, index as int, key@, extension@, false),
    }
}

/// The resources of a model in packaging order: every buffer (by its URI, or
/// the binary chunk), then every image that has a URI, with its resolved MIME
/// type. Each is (is a buffer, index, key, extension, is the binary chunk).
pub open spec fn model_resources(buffers: Seq<Option<Seq<char>>>, images: Seq<Option<(Seq<char>, Seq<char>)>>) -> Seq<(bool, int, Seq<char>, Seq<char>, bool)> {
    Seq::new(buffers.len(), |i: int| (true, i, buffer_key(buffers[i]), Seq::<char>::empty(), buffers[i] is None))
        + image_resources(images, images.len() as int).map_values(|t: (int, Seq<char>, Seq<char>)| (false, t.0, t.1, t.2, false))
}

pub open spec fn opt_view(o: Option<String>) -> Option<Seq<char>> {
    match o {
        Some(s) => Some(s@),
        None => None,
    }
}

pub open spec fn image_view(o: Option<(String, String)>) -> Option<(Seq<char>, Seq<char>)> {
    match o {
        Some(p) => Some((p.0@, p.1@)),
        None => None,
    }
}

/// The resources of a model: its buffers' sources (`None` for the binary
/// chunk) and its images' (URI, MIME type) pairs (`None` for images stored
/// in buffer views).
pub fn resource_list(buffers: &Vec<Option<String>>, images: &Vec<Option<(String, String)>>) -> (r: Vec<Resource>)
    ensures
        r@.map_values(|x: Resource| resource_view(x)) == model_resources(
            buffers@.map_values(|o: Option<String>| opt_view(o)),
            images@.map_values(|o: Option<(String, String)>| image_view(o)),
        ),
{
    let ghost bs = buffers@.map_values(|o: Option<String>| opt_view(o));
    let ghost is = images@.map_values(|o: Option<(String, String)>| image_view(o));
    let mut out: Vec<Resource> = Vec::new();
    let mut i: usize = 0;
    while i < buffers.len()
        invariant
            i <= buffers@.len(),
            bs == buffers@.map_values(|o: Option<String>| opt_view(o)),
            out@.map_values(|x: Resource| resource_view(x)) =~= Seq::new(i as nat, |j: int| (true, j, buffer_key(bs[j]), Seq::<char>::empty(), bs[j] is None)),
        decreases buffers@.len() - i,
    {
        let key = match &buffers[i] {
            Some(uri) => uri.clone(),
            None => String::from_str("glb:bin"),
        };
        assert(key@ == buffer_key(bs[i as int]));
        let ghost prev = out@;
        let chunk = buffers[i].is_none();
        out.push(Resource::Buffer { index: i, key, chunk });
        assert(out@.map_values(|x: Resource| resource_view(x)) =~= prev.map_values(|x: Resource| resource_view(x)).push(
            resource_view(out@[prev.len() as int]),
        ));
        i = i + 1;
    }
    let ghost head = out@.map_values(|x: Resource| resource_view(x));
    let ghost hlen = out@.len();
    let mut j: usize = 0;
    while j < images.len()
        invariant
            j <= images@.len(),
            is == images@.map_values(|o: Option<(String, String)>| image_view(o)),
            hlen == buffers@.len(),
            out@.len() >= hlen,
            out@.map_values(|x: Resource| resource_view(x)) =~= head + image_resources(is, j as int).map_values(
                |t: (int, Seq<char>, Seq<char>)| (false, t.0, t.1, t.2, false),
            ),
        decreases images@.len() - j,
    {
        let ghost prev = out@;
        let ghost f = |t: (int, Seq<char>, Seq<char>)| (false, t.0, t.1, t.2, false);
        match &images[j] {
            Some((uri, mime)) => {
                let ext = image_extension(mime.as_str(), uri.as_str());
                out.push(Resource::Image { index: j, key: uri.clone(), extension: String::from_str(ext) });
                assert(is[j as int] == Some((uri@, mime@)));
                assert(out@.map_values(|x: Resource| resource_view(x)) =~= prev.map_values(|x: Resource| resource_view(x)).push(
                    resource_view(out@[prev.len() as int]),
                ));
                assert(image_resources(is, j + 1).map_values(f) =~= image_resources(is, j as int).map_values(f).push(
                    f((j as int, uri@, image_extension_of(mime@, uri@))),
                ));
            },
            None => {
                assert(is[j as int] is None);
                assert(image_resources(is, j + 1) == image_resources(is, j as int));
            },
        }
        j = j + 1;
    }
    out
}

/// The length a GLB header declares: bytes 8..12, little-endian.
pub open spec fn glb_declared_length(bytes: Seq<u8>) -> int {
    bytes[8] as int + bytes[9] as int * 0x100 + bytes[10] as int * 0x1_0000 + bytes[11] as int * 0x100_0000
}

/// A GLB header (magic `glTF`) that declares a total length shorter than
/// the 12-byte header itself.
pub open spec fn glb_length_too_short(bytes: Seq<u8>) -> bool {
    &&& bytes.len() >= 12
    &&& bytes[0] == 0x67 && bytes[1] == 0x6c && bytes[2] == 0x54 && bytes[3] == 0x46
    &&& glb_declared_length(bytes) < 12
}

fn glb_too_short(bytes: &[u8]) -> (r: bool)
    ensures
        r == glb_length_too_short(bytes@),
{
    if bytes.len() < 12 {
        return false;
    }
    let declared: u64 = bytes[8] as u64 + bytes[9] as u64 * 0x100 + bytes[10] as u64 * 0x1_0000 + bytes[11] as u64 * 0x100_0000;
    bytes[0] == 0x67 && bytes[1] == 0x6c && bytes[2] == 0x54 && bytes[3] == 0x46 && declared < 12
}

/// An image entry of a glTF document: its `uri`, its `bufferView` index and
/// its `mimeType`, as the JSON gives them.
pub struct GltfImage {
    pub uri: Option<String>,
    pub view: Option<usize>,
    pub mime: Option<String>,
}

/// What packaging reads of a glTF document: each buffer's `uri`, each
/// image's fields, and the binary chunk of a GLB file.
pub struct GltfDocument {
    pub buffers: Vec<Option<String>>,
    pub images: Vec<GltfImage>,
    pub blob: Option<Vec<u8>>,
}

pub open spec fn gltf_image_view(i: GltfImage) -> (Option<Seq<char>>, Option<usize>, Option<Seq<char>>) {
    (opt_view(i.uri), i.view, opt_view(i.mime))
}

pub open spec fn blob_view(b: Option<Vec<u8>>) -> Option<Seq<u8>> {
    match b {
        Some(v) => Some(v@),
        None => None,
    }
}

pub open spec fn gltf_document_view(d: GltfDocument) -> (
    Seq<Option<Seq<char>>>,
    Seq<(Option<Seq<char>>, Option<usize>, Option<Seq<char>>)>,
    Option<Seq<u8>>,
) {
    (
        d.buffers@.map_values(|o: Option<String>| opt_view(o)),
        d.images@.map_values(|i: GltfImage| gltf_image_view(i)),
        blob_view(d.blob),
    )
}

/// The document `gltf::Gltf::from_slice` reads from `bytes`, as
/// `gltf_document_view` gives it, or `None` when it refuses them.
pub uninterp spec fn gltf_document(bytes: Seq<u8>) -> Option<(
    Seq<Option<Seq<char>>>,
    Seq<(Option<Seq<char>>, Option<usize>, Option<Seq<char>>)>,
    Option<Seq<u8>>,
)>;

/// Calls `gltf::Gltf::from_slice`, which parses a glTF JSON or GLB document
/// and validates it, and copies out of the parsed JSON root each buffer's
/// `uri` and each image's `uri`, `bufferView` index and `mimeType`, in
/// document order, with the GLB binary chunk (`blob`). The contract claims
/// that the result depends on the bytes alone and names it. It leaves out
/// GLB headers that declare a length under 12 bytes: there `from_slice`
/// subtracts the header size from the declared length and overflows.
#[verifier::external_body]
fn read_gltf(bytes: &[u8]) -> (r: Option<GltfDocument>)
    requires
        !glb_length_too_short(bytes@),
    ensures
        match r {
            Some(d) => gltf_document(bytes@) == Some(gltf_document_view(d)),
            None => gltf_document(bytes@) is None,
        },
{
    let g = gltf::Gltf::from_slice(bytes).ok()?;
    let root = g.document.as_json();
    let buffers = root.buffers.iter().map(|b| b.uri.clone()).collect();
    let images = root.images.iter().map(|i| GltfImage {
        uri: i.uri.clone(),
        view: i.buffer_view.as_ref().map(|v| v.value()),
        mime: i.mime_type.as_ref().map(|m| m.0.clone()),
    }).collect();
    Some(GltfDocument { buffers, images, blob: g.blob.clone() })
}

/// Where a model's buffers and images come from, and its binary chunk.
pub struct GltfSources {
    pub buffers: Vec<Option<String>>,
    pub images: Vec<Option<(String, Option<String>)>>,
    pub blob: Option<Vec<u8>>,
}

/// An image names its source: one in a buffer view declares its MIME type,
/// any other has a URI.
pub open spec fn image_has_source(i: (Option<Seq<char>>, Option<usize>, Option<Seq<char>>)) -> bool {
    match i.1 {
        Some(_) => i.2 is Some,
        None => i.0 is Some,
    }
}

/// An image's source as packaging sees it: `None` for one in a buffer view,
/// its URI and declared MIME type otherwise.
pub open spec fn image_source(i: (Option<Seq<char>>, Option<usize>, Option<Seq<char>>)) -> Option<(Seq<char>, Option<Seq<char>>)> {
    match i.1 {
        Some(_) => None,
        None => Some((i.0->0, i.2)),
    }
}

pub open spec fn uri_image_view(o: Option<(String, Option<String>)>) -> Option<(Seq<char>, Option<Seq<char>>)> {
    match o {
        Some(p) => Some((p.0@, opt_view(p.1))),
        None => None,
    }
}

pub open spec fn gltf_sources_view(s: GltfSources) -> (
    Seq<Option<Seq<char>>>,
    Seq<Option<(Seq<char>, Option<Seq<char>>)>>,
    Option<Seq<u8>>,
) {
    (
        s.buffers@.map_values(|o: Option<String>| opt_view(o)),
        s.images@.map_values(|o: Option<(String, Option<String>)>| uri_image_view(o)),
        blob_view(s.blob),
    )
}

/// The sources of a document: refused when an image names no source,
/// otherwise the buffers' URIs, the images' sources and the binary chunk.
pub open spec fn document_sources(d: (
    Seq<Option<Seq<char>>>,
    Seq<(Option<Seq<char>>, Option<usize>, Option<Seq<char>>)>,
    Option<Seq<u8>>,
)) -> Result<(Seq<Option<Seq<char>>>, Seq<Option<(Seq<char>, Option<Seq<char>>)>>, Option<Seq<u8>>), PackageError> {
    if forall|i: int| 0 <= i < d.1.len() ==> image_has_source(#[trigger] d.1[i]) {
        Ok((d.0, d.1.map_values(|i: (Option<Seq<char>>, Option<usize>, Option<Seq<char>>)| image_source(i)), d.2))
    } else {
        Err(PackageError::InvalidGltf)
    }
}

pub open spec fn sources_result_view(r: Result<GltfSources, PackageError>) -> Result<
    (Seq<Option<Seq<char>>>, Seq<Option<(Seq<char>, Option<Seq<char>>)>>, Option<Seq<u8>>),
    PackageError,
> {
    match r {
        Ok(s) => Ok(gltf_sources_view(s)),
        Err(e) => Err(e),
    }
}

fn copy_opt(o: &Option<String>) -> (r: Option<String>)
    ensures
        opt_view(r) == opt_view(*o),
{
    match o {
        Some(s) => Some(s.clone()),
        None => None,
    }
}

/// The resource sources of a parsed document; a document with an image that
/// names no source is refused.
pub fn sources_of(doc: GltfDocument) -> (r: Result<GltfSources, PackageError>)
    ensures
        sources_result_view(r) == document_sources(gltf_document_view(doc)),
{
    let ghost d = gltf_document_view(doc);
    let mut images: Vec<Option<(String, Option<String>)>> = Vec::new();
    let mut i: usize = 0;
    while i < doc.images.len()
        invariant
            i <= doc.images@.len(),
            d == gltf_document_view(doc),
            images@.len() == i,
            forall|j: int| 0 <= j < i ==> image_has_source(#[trigger] d.1[j])
                && uri_image_view(images@[j]) == image_source(d.1[j]),
        decreases doc.images@.len() - i,
    {
        let im = &doc.images[i];
        assert(d.1[i as int] == gltf_image_view(*im));
        match im.view {
            Some(_) => {
                if im.mime.is_none() {
                    return Err(PackageError::InvalidGltf);
                }
                images.push(None);
            },
            None => {
                match &im.uri {
                    Some(u) => {
                        images.push(Some((u.clone(), copy_opt(&im.mime))));
                    },
                    None => {
                        return Err(PackageError::InvalidGltf);
                    },
                }
            },
        }
        i = i + 1;
    }
    let r = GltfSources { buffers: doc.buffers, images, blob: doc.blob };
    assert(gltf_sources_view(r).1 =~= d.1.map_values(
        |i: (Option<Seq<char>>, Option<usize>, Option<Seq<char>>)| image_source(i),
    ));
    Ok(r)
}

/// Reads the resource sources of a glTF or GLB document. A document that
/// `gltf::Gltf::from_slice` refuses, or whose GLB header declares a length
/// under its own 12 bytes, is refused; so is one with an image that names no
/// source.
pub fn gltf_sources(bytes: &[u8]) -> (r: Result<GltfSources, PackageError>)
    ensures
        glb_length_too_short(bytes@) ==> r == Err::<GltfSources, PackageError>(PackageError::InvalidGltf),
        !glb_length_too_short(bytes@) ==> match gltf_document(bytes@) {
            Some(d) => sources_result_view(r) == document_sources(d),
            None => r == Err::<GltfSources, PackageError>(PackageError::InvalidGltf),
        },
{
    if glb_too_short(bytes) {
        return Err(PackageError::InvalidGltf);
    }
    match read_gltf(bytes) {
        Some(doc) => sources_of(doc),
        None => Err(PackageError::InvalidGltf),
    }
}

/// Where a fresh resource's bytes come from.
#[derive(Clone, Copy, Debug, PartialEq, Eq, Structural)]
pub enum Origin {
    /// The GLB binary chunk.
    Blob,
    /// A `data:` URI, decoded.
    DataUri,
    /// A file next to the model.
    File,
}

/// Whether a resource is the GLB binary chunk.
pub open spec fn resource_chunk(r: Resource) -> bool {
    match r {
        Resource::Buffer { chunk, .. } => chunk,
        Resource::Image { .. } => false,
    }
}

/// The binary chunk for the buffer without a URI; a `data:` URI is decoded;
/// anything else is a file beside the model.
pub open spec fn origin_of(chunk: bool, key: Seq<char>) -> Origin {
    if chunk {
        Origin::Blob
    } else if key.len() >= "data:"@.len() && key.take("data:"@.len() as int) == "data:"@ {
        Origin::DataUri
    } else {
        Origin::File
    }
}

/// The binary chunk's bytes come from the GLB blob, whatever its key.
pub proof fn lemma_chunk_comes_from_blob(key: Seq<char>)
    ensures
        origin_of(true, key) == Origin::Blob,
{
}

/// Any other resource whose key is a `data:` URI is decoded, whatever media
/// type or encoding follows the scheme.
pub proof fn lemma_data_uris_are_decoded(rest: Seq<char>)
    ensures
        origin_of(false, "data:"@ + rest) == Origin::DataUri,
{
    reveal_strlit("data:");
    assert(("data:"@ + rest).take(5) =~= "data:"@);
}

/// A resource that is neither the binary chunk nor a `data:` URI is a file
/// beside the model.
pub proof fn lemma_other_resources_are_files(key: Seq<char>)
    requires
        forall|rest: Seq<char>| key != "data:"@ + rest,
    ensures
        origin_of(false, key) == Origin::File,
{
    reveal_strlit("data:");
    if key.len() >= 5 && key.take(5) == "data:"@ {
        assert(key =~= "data:"@ + key.skip(5));
    }
}

/// An image is a JPEG file when its MIME type is `image/jpeg` or its URI is
/// a `data:image/jpeg;` URI, and a PNG file otherwise.
pub proof fn lemma_image_extension(mime: Seq<char>, uri: Seq<char>, rest: Seq<char>)
    ensures
        image_extension_of("image/jpeg"@, uri) == "jpg"@,
        image_extension_of(mime, "data:image/jpeg;"@ + rest) == "jpg"@,
        mime != "image/jpeg"@ && (forall|r: Seq<char>| uri != "data:image/jpeg;"@ + r) ==> image_extension_of(mime, uri) == "png"@,
{
    reveal_strlit("data:image/jpeg;");
    let p = "data:image/jpeg;"@;
    assert(("data:image/jpeg;"@ + rest).take(p.len() as int) =~= p);
    if uri.len() >= p.len() && uri.take(p.len() as int) == p {
        assert(uri =~= p + uri.skip(p.len() as int));
    }
}

/// A resource that is the first with its key gets a fresh file named after
/// its own kind and index: `buffer-{index}.bin`, or `image-{index}.{ext}`.
pub proof fn lemma_fresh_names(index: usize, key: String, chunk: bool, extension: String)
    ensures
        fresh_name(Resource::Buffer { index, key, chunk }) == "buffer-"@ + decimal(index as nat) + ".bin"@,
        fresh_name(Resource::Image { index, key, extension }) == "image-"@ + decimal(index as nat) + "."@ + extension@,
{
}

/// Where the bytes of `res` come from.
pub fn resource_origin(res: &Resource) -> (r: Origin)
    ensures
        r == origin_of(resource_chunk(*res), resource_key(*res)),
{
    let key = match res {
        Resource::Buffer { key, chunk, .. } => {
            if *chunk {
                return Origin::Blob;
            }
            key.as_str()
        },
        Resource::Image { key, .. } => key.as_str(),
    };
    if starts_with(key, "data:") {
        Origin::DataUri
    } else {
        Origin::File
    }
}

} // verus!
