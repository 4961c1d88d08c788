use camfast::nal::{hevc_picture, HevcPicture};

fn au(types: &[u8]) -> Vec<u8> {
    let mut out = Vec::new();
    for t in types {
        out.extend_from_slice(&3u32.to_be_bytes());
        out.extend_from_slice(&[t << 1, 1, 0xaa]);
    }
    out
}

#[test]
fn classifies_first_vcl() {
    assert_eq!(hevc_picture(&au(&[35, 39, 21])), HevcPicture::Cra);
    assert_eq!(hevc_picture(&au(&[19])), HevcPicture::ClosedIrap);
    assert_eq!(hevc_picture(&au(&[20])), HevcPicture::ClosedIrap);
    assert_eq!(hevc_picture(&au(&[16])), HevcPicture::ClosedIrap);
    assert_eq!(hevc_picture(&au(&[8])), HevcPicture::Rasl);
    assert_eq!(hevc_picture(&au(&[39, 1])), HevcPicture::Other);
    assert_eq!(hevc_picture(&au(&[39])), HevcPicture::Other);
    assert_eq!(hevc_picture(&[]), HevcPicture::Other);
    // Truncated length prefix doesn't panic.
    assert_eq!(hevc_picture(&[0, 0, 0, 9, 42]), HevcPicture::Other);
}

#[test]
fn what_follows_the_first_picture_does_not_count() {
    assert_eq!(hevc_picture(&au(&[21, 19])), HevcPicture::Cra);
    assert_eq!(hevc_picture(&au(&[1, 21])), HevcPicture::Other);
    assert_eq!(hevc_picture(&au(&[9, 21])), HevcPicture::Rasl);
}

#[test]
fn empty_units_are_skipped() {
    let mut bytes = vec![0, 0, 0, 0];
    bytes.extend(au(&[21]));
    assert_eq!(hevc_picture(&bytes), HevcPicture::Cra);
}
