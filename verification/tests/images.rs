//! The replies of the image endpoints.

use boxlite_cli::images::{
    check_reference, list_response, pulled_image_response, ImageInfo, ImageInfoResponse,
    PullImageRequest, PullReply, Timestamp,
};

fn image_info(reference: &str, id: &str) -> ImageInfo {
    ImageInfo {
        reference: reference.to_string(),
        repository: reference
            .rsplit_once(':')
            .map(|(repo, _)| repo)
            .unwrap_or(reference)
            .to_string(),
        tag: reference.rsplit_once(':').map(|(_, tag)| tag).unwrap_or("latest").to_string(),
        id: id.to_string(),
        cached_at: Timestamp::new(0, 0).unwrap(),
        size: None,
    }
}

#[test]
fn pulled_image_response_matches_by_manifest_digest_not_user_reference() {
    let digest = "sha256:1111222233334444555566667777888899990000aaaabbbbccccddddeeeeffff";
    let images = vec![image_info("docker.io/library/alpine:latest", digest)];

    let reply = pulled_image_response("alpine", digest, &images);

    assert_eq!(reply.status(), 200);
    match reply {
        PullReply::Image(image) => {
            assert_eq!(image.reference, "docker.io/library/alpine:latest");
            assert_eq!(image.id, digest);
        }
        PullReply::Refused(e) => panic!("{e:?}"),
    }
}

#[test]
fn pulled_image_response_500s_when_cache_listing_misses_digest() {
    let pulled_digest = "sha256:aaaabbbbccccddddeeeeffff1111222233334444555566667777888899990000";
    let listed_digest = "sha256:0000999988887777666655554444333322221111ffffeeeeddddccccbbbbaaaa";
    let images = vec![image_info("docker.io/library/alpine:latest", listed_digest)];

    let reply = pulled_image_response("alpine", pulled_digest, &images);

    assert_eq!(reply.status(), 500);
    match reply {
        PullReply::Refused(e) => {
            assert!(
                e.message.contains("alpine") && e.message.contains(pulled_digest),
                "error should identify the pulled ref and missing digest, got {e:?}",
            );
            assert_eq!(
                e.message,
                format!(
                    "pull of alpine succeeded (digest {pulled_digest}) but the cache listing did not include it"
                )
            );
            assert_eq!((e.kind, e.code), ("InternalError", "internal"));
        }
        PullReply::Image(image) => panic!("{image:?}"),
    }
}

#[test]
fn the_first_image_with_the_digest_is_sent() {
    let images = vec![image_info("a:1", "x"), image_info("b:2", "y"), image_info("c:3", "y")];
    match pulled_image_response("c:3", "y", &images) {
        PullReply::Image(image) => assert_eq!(image.reference, "b:2"),
        PullReply::Refused(e) => panic!("{e:?}"),
    }
}

#[test]
fn blank_references_are_refused() {
    for reference in ["", "   ", "\t\n", "\u{2003}"] {
        let refused = check_reference(&PullImageRequest { reference: reference.to_string() });
        let e = refused.expect_err("blank");
        assert_eq!(e.status, 400);
        assert_eq!(e.message, "reference must not be empty");
        assert_eq!((e.kind, e.code), ("InvalidArgumentError", "invalid_argument"));
    }
    assert!(check_reference(&PullImageRequest { reference: " alpine ".to_string() }).is_ok());
}

#[test]
fn images_are_sent_with_their_time_and_size() {
    let mut info = image_info("docker.io/library/alpine:3.19", "sha256:1");
    info.cached_at = Timestamp::new(1_431_648_000, 250_000_000).unwrap();
    info.size = Some(42);
    let sent = ImageInfoResponse::from(&info);
    assert_eq!(sent.repository, "docker.io/library/alpine");
    assert_eq!(sent.tag, "3.19");
    assert_eq!(sent.cached_at, "2015-05-15T00:00:00.250+00:00");
    assert_eq!(sent.size_bytes, Some(42));
    assert_eq!(
        Timestamp::new(0, 0).unwrap().to_rfc3339(),
        chrono::DateTime::<chrono::Utc>::UNIX_EPOCH.to_rfc3339()
    );
}

#[test]
fn timestamps_span_the_whole_calendar() {
    let first = chrono::DateTime::<chrono::Utc>::MIN_UTC;
    let last = chrono::DateTime::<chrono::Utc>::MAX_UTC;
    for t in [first, last] {
        let nanos = t.timestamp_subsec_nanos();
        let own = Timestamp::new(t.timestamp(), nanos).unwrap();
        assert_eq!(own.to_rfc3339(), t.to_rfc3339());
    }
    assert!(Timestamp::new(first.timestamp() - 1, 0).is_none());
    assert!(Timestamp::new(last.timestamp() + 1, 0).is_none());
    assert!(Timestamp::new(0, 1_000_000_000).is_none());
    assert!(Timestamp::new(59, 1_500_000_000).is_some());
    assert!(Timestamp::new(-1, 1_500_000_000).is_some());
    assert!(Timestamp::new(59, 2_000_000_000).is_none());
    assert_eq!(
        Timestamp::new(59, 1_500_000_000).unwrap().to_rfc3339(),
        "1970-01-01T00:00:60.500+00:00"
    );
}

#[test]
fn listings_keep_the_order_of_the_cache() {
    let images = vec![image_info("b:2", "y"), image_info("a:1", "x")];
    let list = list_response(&images);
    let names: Vec<&str> = list.images.iter().map(|x| x.reference.as_str()).collect();
    assert_eq!(names, vec!["b:2", "a:1"]);
    assert!(list_response(&[]).images.is_empty());
}
