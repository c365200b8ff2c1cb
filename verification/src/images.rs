//! The replies of the image endpoints.

use crate::text::{chars_of, equal, stands_at, starts, trim, trimmed};
use vstd::prelude::*;

verus! {

/// A moment that the calendar can write: seconds since 1970-01-01T00:00:00Z, and nanoseconds into
/// that second. A second that ends a minute may be stretched by a leap second.
pub open spec fn writable(secs: int, nanos: int) -> bool {
    &&& -8334601228800 <= secs <= 8210266876799
    &&& 0 <= nanos < 2_000_000_000
    &&& nanos < 1_000_000_000 || secs % 60 == 59
}

/// The text that `chrono::DateTime::to_rfc3339` gives a moment in UTC.
pub uninterp spec fn rfc3339(secs: int, nanos: int) -> Seq<char>;

/// Calls `chrono::DateTime::to_rfc3339` on the moment in UTC that `chrono::DateTime::from_timestamp`
/// makes of a writable timestamp. The text depends on the two numbers alone; nothing is said of
/// what it holds.
#[verifier::external_body]
fn write_rfc3339(secs: i64, nanos: u32) -> (r: String)
    requires
        writable(secs as int, nanos as int),
    ensures
        r@ == rfc3339(secs as int, nanos as int),
{
    chrono::DateTime::from_timestamp(secs, nanos).unwrap().to_rfc3339()
}

/// A moment in UTC.
#[derive(Debug, Clone, Copy)]
pub struct Timestamp {
    secs: i64,
    nanos: u32,
}

impl Timestamp {
    #[verifier::type_invariant]
    spec fn inv(self) -> bool {
        writable(self.secs as int, self.nanos as int)
    }

    pub closed spec fn secs(self) -> int {
        self.secs as int
    }

    pub closed spec fn nanos(self) -> int {
        self.nanos as int
    }

    /// The moment that lies `secs` seconds and `nanos` nanoseconds behind the start of 1970, if
    /// the calendar can write it.
    pub fn new(secs: i64, nanos: u32) -> (r: Option<Timestamp>)
        ensures
            r is Some <==> writable(secs as int, nanos as int),
            r matches Some(t) ==> t.secs() == secs && t.nanos() == nanos,
    {
        if secs < -8334601228800 || secs > 8210266876799 || nanos >= 2_000_000_000 {
            return None;
        }
        if nanos >= 1_000_000_000 && (secs + 8334601228800) % 60 != 59 {
            return None;
        }
        Some(Timestamp { secs, nanos })
    }

    /// The moment in the form of RFC 3339.
    pub fn to_rfc3339(&self) -> (r: String)
        ensures
            r@ == rfc3339(self.secs(), self.nanos()),
    {
        proof {
            use_type_invariant(self);
        }
        write_rfc3339(self.secs, self.nanos)
    }
}

/// A cached image.
#[derive(Debug)]
pub struct ImageInfo {
    pub reference: String,
    pub repository: String,
    pub tag: String,
    pub id: String,
    pub cached_at: Timestamp,
    pub size: Option<u64>,
}

/// The body of a pull request.
#[derive(Debug)]
pub struct PullImageRequest {
    pub reference: String,
}

/// An image as it is sent. Its form may differ from that of the cache.
#[derive(Debug)]
pub struct ImageInfoResponse {
    pub reference: String,
    pub repository: String,
    pub tag: String,
    pub id: String,
    pub cached_at: String,
    /// Left out where the size is not known.
    pub size_bytes: Option<u64>,
}

#[verifier::ext_equal]
pub struct ImageView {
    pub reference: Seq<char>,
    pub repository: Seq<char>,
    pub tag: Seq<char>,
    pub id: Seq<char>,
    pub cached_at: Seq<char>,
    pub size_bytes: Option<u64>,
}

impl View for ImageInfoResponse {
    type V = ImageView;

    open spec fn view(&self) -> ImageView {
        ImageView {
            reference: self.reference@,
            repository: self.repository@,
            tag: self.tag@,
            id: self.id@,
            cached_at: self.cached_at@,
            size_bytes: self.size_bytes,
        }
    }
}

/// What is sent of an image.
pub open spec fn shown(info: ImageInfo) -> ImageView {
    ImageView {
        reference: info.reference@,
        repository: info.repository@,
        tag: info.tag@,
        id: info.id@,
        cached_at: rfc3339(info.cached_at.secs(), info.cached_at.nanos()),
        size_bytes: info.size,
    }
}

impl ImageInfoResponse {
    pub fn from(info: &ImageInfo) -> (r: ImageInfoResponse)
        ensures
            r@ == shown(*info),
    {
        ImageInfoResponse {
            reference: info.reference.clone(),
            repository: info.repository.clone(),
            tag: info.tag.clone(),
            id: info.id.clone(),
            cached_at: info.cached_at.to_rfc3339(),
            size_bytes: info.size,
        }
    }
}

/// The body that lists the cached images.
#[derive(Debug)]
pub struct ListImagesResponse {
    pub images: Vec<ImageInfoResponse>,
}

/// A refusal: its status, a message, and the kind and code of the error.
#[derive(Debug)]
pub struct ErrorReply {
    pub status: u16,
    pub message: String,
    pub kind: &'static str,
    pub code: &'static str,
}

#[verifier::ext_equal]
pub struct ErrorView {
    pub status: u16,
    pub message: Seq<char>,
    pub kind: Seq<char>,
    pub code: Seq<char>,
}

impl View for ErrorReply {
    type V = ErrorView;

    open spec fn view(&self) -> ErrorView {
        ErrorView {
            status: self.status,
            message: self.message@,
            kind: self.kind@,
            code: self.code@,
        }
    }
}

/// The reply to a pull: the image, or a refusal.
#[derive(Debug)]
pub enum PullReply {
    Image(ImageInfoResponse),
    Refused(ErrorReply),
}

/// A `PullReply` in plain values.
#[verifier::ext_equal]
pub enum PullReplyView {
    Image(ImageView),
    Refused(ErrorView),
}

impl View for PullReply {
    type V = PullReplyView;

    open spec fn view(&self) -> PullReplyView {
        match *self {
            PullReply::Image(image) => PullReplyView::Image(image@),
            PullReply::Refused(e) => PullReplyView::Refused(e@),
        }
    }
}

impl PullReply {
    pub fn status(&self) -> (r: u16)
        ensures
            r == match *self {
                PullReply::Image(_) => 200,
                PullReply::Refused(e) => e.status,
            },
    {
        match self {
            PullReply::Image(_) => 200,
            PullReply::Refused(e) => e.status,
        }
    }
}

/// Refuses a request whose reference is nothing but white space, before anything is pulled.
pub fn check_reference(request: &PullImageRequest) -> (r: Result<(), ErrorReply>)
    ensures
        r is Ok <==> trimmed(request.reference@).len() > 0,
        r matches Err(e) ==> e@ == (ErrorView {
            status: 400,
            message: "reference must not be empty"@,
            kind: "InvalidArgumentError"@,
            code: "invalid_argument"@,
        }),
{
    let chars = chars_of(request.reference.as_str());
    if trim(&chars).len() == 0 {
        return Err(
            ErrorReply {
                status: 400,
                message: "reference must not be empty".to_owned(),
                kind: "InvalidArgumentError",
                code: "invalid_argument",
            },
        );
    }
    Ok(())
}

/// Where the first image with the given identifier stands.
pub open spec fn position(images: Seq<ImageInfo>, id: Seq<char>) -> Option<int>
    decreases images.len(),
{
    if images.len() == 0 {
        None
    } else if images[0].id@ == id {
        Some(0)
    } else {
        match position(images.drop_first(), id) {
            Some(i) => Some(i + 1),
            None => None,
        }
    }
}

pub open spec fn missing_text(reference: Seq<char>, digest: Seq<char>) -> Seq<char> {
    "pull of "@ + reference + " succeeded (digest "@ + digest
        + ") but the cache listing did not include it"@
}

fn missing_message(reference: &str, digest: &str) -> (r: String)
    ensures
        r@ == missing_text(reference@, digest@),
{
    let mut r: String = "pull of ".to_owned();
    r.append(reference);
    r.append(" succeeded (digest ");
    r.append(digest);
    r.append(") but the cache listing did not include it");
    r
}

/// The reply to a pull that went well.
pub open spec fn pull_reply(
    reference: Seq<char>,
    digest: Seq<char>,
    images: Seq<ImageInfo>,
) -> PullReplyView {
    match position(images, digest) {
        Some(i) => PullReplyView::Image(shown(images[i])),
        None => PullReplyView::Refused(
            ErrorView {
                status: 500,
                message: missing_text(reference, digest),
                kind: "InternalError"@,
                code: "internal"@,
            },
        ),
    }
}

/// The reply to a pull that went well: the first listed image whose identifier is the digest that
/// was pulled. The listing holds resolved references, so the one that was asked for decides
/// nothing; it only stands in the message when the listing lacks the digest.
pub fn pulled_image_response(
    req_reference: &str,
    manifest_digest: &str,
    images: &[ImageInfo],
) -> (r: PullReply)
    ensures
        r@ == pull_reply(req_reference@, manifest_digest@, images@),
{
    let mut i: usize = 0;
    assert(images@.skip(0) == images@);
    while i < images.len()
        invariant
            i <= images.len(),
            position(images@, manifest_digest@) == match position(
                images@.skip(i as int),
                manifest_digest@,
            ) {
                Some(k) => Some(k + i),
                None => None,
            },
        decreases images.len() - i,
    {
        assert(images@.skip(i as int).drop_first() == images@.skip(i + 1));
        if equal(images[i].id.as_str(), manifest_digest) {
            return PullReply::Image(ImageInfoResponse::from(&images[i]));
        }
        i = i + 1;
    }
    PullReply::Refused(
        ErrorReply {
            status: 500,
            message: missing_message(req_reference, manifest_digest),
            kind: "InternalError",
            code: "internal",
        },
    )
}

/// The listing of all cached images, in the order of the cache.
pub fn list_response(images: &[ImageInfo]) -> (r: ListImagesResponse)
    ensures
        r.images@.map_values(|x: ImageInfoResponse| x@) == images@.map_values(
            |x: ImageInfo| shown(x),
        ),
{
    let mut list: Vec<ImageInfoResponse> = Vec::new();
    let mut i: usize = 0;
    while i < images.len()
        invariant
            i <= images.len(),
            list.len() == i,
            forall|k: int| 0 <= k < i ==> (#[trigger] list@[k])@ == shown(images@[k]),
        decreases images.len() - i,
    {
        list.push(ImageInfoResponse::from(&images[i]));
        i = i + 1;
    }
    assert(list@.map_values(|x: ImageInfoResponse| x@) =~= images@.map_values(
        |x: ImageInfo| shown(x),
    ));
    ListImagesResponse { images: list }
}

/// A digest that is listed anywhere is found, at the first image that has it; one that is not
/// listed is not.
pub proof fn law_position_is_first(images: Seq<ImageInfo>, id: Seq<char>)
    ensures
        position(images, id) is Some <==> exists|k: int|
            0 <= k < images.len() && (#[trigger] images[k]).id@ == id,
        position(images, id) matches Some(i) ==> {
            &&& 0 <= i < images.len()
            &&& images[i].id@ == id
            &&& forall|k: int| 0 <= k < i ==> (#[trigger] images[k]).id@ != id
        },
    decreases images.len(),
{
    if images.len() > 0 && images[0].id@ != id {
        let rest = images.drop_first();
        law_position_is_first(rest, id);
        assert forall|k: int| 0 < k < images.len() implies #[trigger] images[k] == rest[k - 1] by {}
        if position(rest, id) is Some {
            let i = position(rest, id)->Some_0;
            assert(images[i + 1].id@ == id);
        } else {
            assert forall|k: int| 0 <= k < images.len() implies (#[trigger] images[k]).id@ != id by {
                if k > 0 {
                    assert(images[k] == rest[k - 1]);
                }
            }
        }
    }
}

/// An image is found by the digest that was pulled, whatever reference it was asked for by: as
/// long as some listed image has the digest, the reference changes nothing in the reply.
pub proof fn law_reference_decides_nothing(
    reference: Seq<char>,
    other: Seq<char>,
    digest: Seq<char>,
    images: Seq<ImageInfo>,
    k: int,
)
    requires
        0 <= k < images.len(),
        images[k].id@ == digest,
    ensures
        pull_reply(reference, digest, images) is Image,
        pull_reply(reference, digest, images)->Image_0.id == digest,
        pull_reply(reference, digest, images) == pull_reply(other, digest, images),
{
    law_position_is_first(images, digest);
}

/// What is sent of an image is what the cache holds, each value under its own name: the reply to a
/// pull carries every field of the first image with the digest, and says so with status 200.
pub proof fn law_reply_carries_the_image(
    reference: Seq<char>,
    digest: Seq<char>,
    images: Seq<ImageInfo>,
    k: int,
)
    requires
        0 <= k < images.len(),
        images[k].id@ == digest,
        forall|j: int| 0 <= j < k ==> (#[trigger] images[j]).id@ != digest,
    ensures
        pull_reply(reference, digest, images) matches PullReplyView::Image(view) && {
            &&& view.reference == images[k].reference@
            &&& view.repository == images[k].repository@
            &&& view.tag == images[k].tag@
            &&& view.id == images[k].id@
            &&& view.cached_at == rfc3339(images[k].cached_at.secs(), images[k].cached_at.nanos())
            &&& view.size_bytes == images[k].size
        },
{
    law_position_is_first(images, digest);
    let i = position(images, digest)->Some_0;
    assert(images[i].id@ == digest);
}

/// A pull whose digest is not listed is answered with status 500, and the message names the
/// reference and then the digest.
pub proof fn law_missing_digest_is_refused(
    reference: Seq<char>,
    digest: Seq<char>,
    images: Seq<ImageInfo>,
)
    requires
        forall|k: int| 0 <= k < images.len() ==> (#[trigger] images[k]).id@ != digest,
    ensures
        pull_reply(reference, digest, images) matches PullReplyView::Refused(e) && {
            &&& e.status == 500
            &&& starts(e.message, "pull of "@ + reference)
            &&& stands_at(
                e.message,
                digest,
                ("pull of "@ + reference + " succeeded (digest "@).len() as int,
            )
        },
{
    law_position_is_first(images, digest);
    let m = missing_text(reference, digest);
    let a = "pull of "@ + reference;
    let b = a + " succeeded (digest "@;
    assert(m.take(a.len() as int) =~= a);
    let at = b.len() as int;
    assert(m.subrange(at, at + digest.len()) =~= digest);
}

} // verus!
