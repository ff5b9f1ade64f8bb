use wl_screenrec::format::{
    dmabuf_to_av, negotiate_format, CapturePixelFormat, DmabufFormat, DmabufPotentialFormat,
    NegotiationError, FOURCC_XBGR8888, FOURCC_XRGB2101010, FOURCC_XRGB8888, MODIFIER_INVALID,
    MODIFIER_LINEAR,
};

fn cand(fourcc: u32, modifiers: &[u64]) -> DmabufPotentialFormat {
    DmabufPotentialFormat {
        fourcc,
        modifiers: modifiers.to_vec(),
    }
}

#[test]
fn negotiation_prefers_8bit_over_10bit() {
    // both the 10-bit and the 8-bit encoding have a linear candidate;
    // the 8-bit one must win regardless of order
    let cands = vec![
        cand(FOURCC_XRGB2101010, &[MODIFIER_LINEAR]),
        cand(FOURCC_XRGB8888, &[MODIFIER_LINEAR]),
    ];
    let f = negotiate_format(&cands, 1920, 1080).unwrap();
    assert_eq!(f.fourcc, FOURCC_XRGB8888);
    assert_eq!((f.width, f.height), (1920, 1080));
}

#[test]
fn negotiation_takes_10bit_alone() {
    let cands = vec![cand(FOURCC_XRGB2101010, &[MODIFIER_LINEAR])];
    let f = negotiate_format(&cands, 640, 480).unwrap();
    assert_eq!(f.fourcc, FOURCC_XRGB2101010);
}

#[test]
fn negotiation_accepts_invalid_sentinel() {
    // drivers that only report the "don't care" sentinel are accepted
    let cands = vec![cand(FOURCC_XBGR8888, &[0x0100_0000_0000_0001, MODIFIER_INVALID])];
    let f = negotiate_format(&cands, 8, 8).unwrap();
    assert_eq!(f.fourcc, FOURCC_XBGR8888);
    assert_eq!(f.modifiers, vec![0x0100_0000_0000_0001, MODIFIER_INVALID]);
}

#[test]
fn negotiation_rejects_tiled_only() {
    // a supported encoding whose only layouts are tiled is unusable
    let cands = vec![
        cand(FOURCC_XRGB8888, &[0x0100_0000_0000_0001]),
        cand(0x3231_5659, &[MODIFIER_LINEAR]), // an unsupported encoding
    ];
    match negotiate_format(&cands, 8, 8) {
        Err(NegotiationError::NoAcceptableFormat { attempted }) => {
            // the fatal diagnostic names every candidate that was tried
            assert_eq!(attempted.len(), 2);
            assert_eq!(attempted[0].fourcc, FOURCC_XRGB8888);
            assert_eq!(attempted[0].modifiers, vec![0x0100_0000_0000_0001]);
            assert_eq!(attempted[1].fourcc, 0x3231_5659);
            assert_eq!(attempted[1].modifiers, vec![MODIFIER_LINEAR]);
        }
        Ok(_) => panic!("tiled-only candidates must not negotiate"),
    }
}

#[test]
fn negotiation_takes_first_matching_candidate() {
    let cands = vec![
        cand(FOURCC_XRGB8888, &[0x0100_0000_0000_0001]), // tiled only: skipped
        cand(FOURCC_XRGB8888, &[MODIFIER_LINEAR, 7]),
        cand(FOURCC_XRGB8888, &[MODIFIER_LINEAR]),
    ];
    let f = negotiate_format(&cands, 8, 8).unwrap();
    assert_eq!(f.modifiers, vec![MODIFIER_LINEAR, 7]);
}

#[test]
fn dmabuf_format_same_as_compares_by_value() {
    let a = DmabufFormat {
        width: 10,
        height: 20,
        fourcc: FOURCC_XRGB8888,
        modifiers: vec![MODIFIER_LINEAR],
    };
    let mut b = DmabufFormat {
        width: 10,
        height: 20,
        fourcc: FOURCC_XRGB8888,
        modifiers: vec![MODIFIER_LINEAR],
    };
    assert!(a.same_as(&b));
    b.modifiers = vec![MODIFIER_INVALID];
    assert!(!a.same_as(&b));
    b.modifiers = vec![MODIFIER_LINEAR];
    b.width = 11;
    assert!(!a.same_as(&b));
}


#[test]
fn fourcc_decodes_to_pixel_layout() {
    assert_eq!(dmabuf_to_av(FOURCC_XRGB8888), CapturePixelFormat::Bgrz);
    assert_eq!(dmabuf_to_av(FOURCC_XRGB2101010), CapturePixelFormat::X2rgb10le);
}
