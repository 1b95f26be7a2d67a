//! Clipboard items, frames, paths, lists and the two handshakes.
use lan_mouse::clipsync::clipboard::{
    both_failed, item_of_text, read_local_clipboard, unix_try_read, write_local_clipboard,
};
use lan_mouse::clipsync::frame::{decode_header, encode_frame, offer_fits, FrameKind};
use lan_mouse::clipsync::handshake::{
    accept_peer, control_hello, control_response, make_ctrl_nonce, peer_challenge, peer_nonce,
    verify_response, DataReq,
};
use lan_mouse::clipsync::item::{invalid_text, ClipboardItem};
use lan_mouse::clipsync::manifest::{unsafe_relpath, Entry, Manifest, MAX_MANIFEST_ENTRIES};
use lan_mouse::clipsync::relpath::is_safe_relpath;
use lan_mouse::clipsync::sync::{
    accept_offer, data_target, dispatch_frame, files_enabled, item_frame, offer_frame, run_owner, take_frame,
    EchoGuard, FrameAction, OfferChange, OfferFormats, OfferGuard, OwnerAction, OwnerEvent, OwnerMsg, WM_QUIT,
};
use lan_mouse::version::git_describe;

fn text(s: &str) -> ClipboardItem {
    ClipboardItem::Text(s.to_string())
}

#[test]
fn relpath_safety() {
    assert!(is_safe_relpath("a.txt"));
    assert!(is_safe_relpath("d/a.txt"));
    assert!(is_safe_relpath("目录/文件.bin"));
    assert!(!is_safe_relpath(""));
    assert!(!is_safe_relpath("../x"));
    assert!(!is_safe_relpath("a/../../x"));
    assert!(!is_safe_relpath("/etc/passwd"));
    assert!(!is_safe_relpath(r"\\host\share\x"));
    assert!(!is_safe_relpath(r"C:\Windows\x"));
    assert!(!is_safe_relpath(r"a\..\b"));
    assert!(!is_safe_relpath("a//b"));
}

#[test]
fn relpath_edge_cases() {
    assert!(is_safe_relpath("a"));
    assert!(is_safe_relpath("."));
    assert!(is_safe_relpath("a/./b"));
    assert!(is_safe_relpath("..."));
    assert!(is_safe_relpath("a..b/..c"));
    assert!(is_safe_relpath("ab:c"));
    assert!(is_safe_relpath("目:x"));
    assert!(!is_safe_relpath("::"));
    assert!(!is_safe_relpath(".."));
    assert!(!is_safe_relpath("a/"));
    assert!(!is_safe_relpath("a\\"));
    assert!(!is_safe_relpath("\\"));
    assert!(!is_safe_relpath("a\0b"));
    assert!(!is_safe_relpath("a\u{7f}"));
    assert!(!is_safe_relpath("a\u{9f}"));
    assert!(is_safe_relpath("a\u{a0}"));
    assert!(!is_safe_relpath("tab\there"));
}

#[test]
fn manifest_validate_rejects_unsafe() {
    let bad = Manifest {
        session_id: 1,
        entries: vec![Entry {
            file_id: 0,
            relpath: "../evil".into(),
            size: 1,
            is_dir: false,
        }],
    };
    assert!(bad.validate().is_err());
    let good = Manifest {
        session_id: 1,
        entries: vec![Entry {
            file_id: 0,
            relpath: "ok/a.txt".into(),
            size: 1,
            is_dir: false,
        }],
    };
    assert!(good.validate().is_ok());
}

#[test]
fn manifest_validate_says_why() {
    let entry = |rel: &str| Entry { file_id: 0, relpath: rel.into(), size: 0, is_dir: false };
    let bad = Manifest { session_id: 1, entries: vec![entry("ok"), entry("a\n"), entry("..")] };
    assert_eq!(bad.validate(), Err("unsafe relpath: \"a\\n\"".to_string()));
    assert_eq!(unsafe_relpath("\"x\""), "unsafe relpath: \"x\"");
    let full = Manifest {
        session_id: 1,
        entries: (0..MAX_MANIFEST_ENTRIES).map(|_| entry("x")).collect(),
    };
    assert!(full.validate().is_ok());
    let over = Manifest {
        session_id: 1,
        entries: (0..MAX_MANIFEST_ENTRIES + 1).map(|_| entry("..")).collect(),
    };
    assert_eq!(over.validate(), Err("too many entries: 65537".to_string()));
}

#[test]
fn control_frame_kind() {
    assert_eq!(FrameKind::from_type(0x01), Some(FrameKind::Text));
    assert_eq!(FrameKind::from_type(0x10), Some(FrameKind::FileOffer));
    assert_eq!(FrameKind::from_type(0x11), Some(FrameKind::FileRevoke));
    assert_eq!(FrameKind::from_type(0x99), None);
}

#[test]
fn frame_kinds_have_type_bytes() {
    for kind in [FrameKind::Text, FrameKind::FileOffer, FrameKind::FileRevoke] {
        assert_eq!(FrameKind::from_type(kind.type_byte()), Some(kind));
    }
    assert_eq!(FrameKind::FileRevoke.type_byte(), 0x11);
}

#[test]
fn handshake_hmac_roundtrip() {
    let key = b"shared-secret";
    let req = DataReq {
        session_id: 7,
        file_id: 3,
        offset: 1024,
    };
    let bytes = req.encode(key);
    let parsed = DataReq::decode_and_verify(&bytes, key).unwrap();
    assert_eq!(parsed, req);
    assert!(DataReq::decode_and_verify(&bytes, b"wrong").is_err());
}

#[test]
fn requests_have_the_expected_bytes() {
    let req = DataReq { session_id: 7, file_id: 3, offset: 1024 };
    let bytes = req.encode(b"shared-secret");
    assert_eq!(bytes.len(), 53);
    assert_eq!(&bytes[..9], b"LMFD\x01\xff\x51\x58\x93");
    assert_eq!(
        bytes[37..],
        [0, 0, 0, 7, 0, 0, 0, 3, 0, 0, 0, 0, 0, 0, 4, 0]
    );
    assert_eq!(req.encode_with(&[9u8; 32])[5..37], [9u8; 32]);
}

#[test]
fn bad_requests_say_why() {
    let key = b"k";
    let good = DataReq { session_id: 1, file_id: 2, offset: 3 }.encode(key);
    let why = |b: &[u8]| DataReq::decode_and_verify(b, key).unwrap_err();
    assert_eq!(why(&good[..52]), "bad handshake len 52");
    assert_eq!(why(&[]), "bad handshake len 0");
    let mut magic = good.clone();
    magic[3] = b'X';
    assert_eq!(why(&magic), "bad magic");
    let mut ver = good.clone();
    ver[4] = 2;
    assert_eq!(why(&ver), "bad ver");
    let mut offset = good.clone();
    offset[52] ^= 1;
    assert_eq!(why(&offset), "hmac mismatch");
    let req = DataReq::decode(&offset).unwrap();
    assert_eq!(req.offset, 2);
    assert_eq!(req.accept(true), Ok(req));
    assert_eq!(req.accept(false), Err("hmac mismatch".to_string()));
}

#[test]
fn control_response_is_hmac_sha256() {
    let expected = [
        0x5b, 0xdc, 0xc1, 0x46, 0xbf, 0x60, 0x75, 0x4e, 0x6a, 0x04, 0x24, 0x26, 0x08, 0x95, 0x75,
        0xc7, 0x5a, 0x00, 0x3f, 0x08, 0x9d, 0x27, 0x39, 0x83, 0x9d, 0xec, 0x58, 0xb9, 0x64, 0xec,
        0x38, 0x43,
    ];
    assert_eq!(control_response(b"Jefe", b"what do ya want for nothing?"), expected);
}

/// Runs the authentication of a control connection between two sides.
fn control_handshake(
    (key_a, nonce_a): (&[u8], [u8; 16]),
    (key_b, nonce_b): (&[u8], [u8; 16]),
) -> (Result<(), String>, Result<(), String>) {
    let hello_a: [u8; 21] = control_hello(&nonce_a).try_into().unwrap();
    let hello_b: [u8; 21] = control_hello(&nonce_b).try_into().unwrap();
    let answer_a = control_response(key_a, &peer_challenge(&hello_b, &nonce_a).unwrap());
    let answer_b = control_response(key_b, &peer_challenge(&hello_a, &nonce_b).unwrap());
    (
        verify_response(key_a, &nonce_a, &answer_b),
        verify_response(key_b, &nonce_b, &answer_a),
    )
}

#[test]
fn control_handshake_ok_and_rejects_mismatched_key() {
    let (ra, rb) = control_handshake((b"shared", [1u8; 16]), (b"shared", [2u8; 16]));
    assert!(ra.is_ok() && rb.is_ok());
    let (rc, rd) = control_handshake((b"shared", [3u8; 16]), (b"other", [4u8; 16]));
    assert!(rc.is_err() || rd.is_err());
    assert_eq!(rc, Err("control auth failed".to_string()));
}

#[test]
fn control_hello_is_checked() {
    let hello = control_hello(&[7u8; 16]);
    assert_eq!(&hello[..5], b"LMCA\x01");
    assert_eq!(hello.len(), 21);
    let mut h: [u8; 21] = hello.try_into().unwrap();
    assert_eq!(peer_nonce(&h), Ok(vec![7u8; 16]));
    h[4] = 2;
    assert_eq!(peer_nonce(&h), Err("bad control auth hello".to_string()));
    h[4] = 1;
    h[0] = 0;
    assert!(peer_nonce(&h).is_err());
    assert_eq!(accept_peer(true), Ok(()));
    assert_eq!(accept_peer(false), Err("control auth failed".to_string()));
}

#[test]
fn own_greeting_is_refused() {
    let own = [7u8; 16];
    let mut echo: [u8; 21] = control_hello(&own).try_into().unwrap();
    assert_eq!(peer_nonce(&echo), Ok(own.to_vec()));
    assert_eq!(peer_challenge(&echo, &own), Err("control auth failed".to_string()));
    // One byte of difference, at either end, makes it another nonce.
    let mut first = own;
    first[0] = 8;
    assert_eq!(peer_challenge(&echo, &first), Ok(own.to_vec()));
    let mut last = own;
    last[15] = 8;
    assert_eq!(peer_challenge(&echo, &last), Ok(own.to_vec()));
    // What is no greeting is refused as such, whatever nonce it holds.
    echo[4] = 2;
    assert_eq!(peer_challenge(&echo, &own), Err("bad control auth hello".to_string()));
    assert_eq!(peer_challenge(&echo, &first), Err("bad control auth hello".to_string()));
}

#[test]
fn nonces_are_fresh() {
    assert_eq!(
        make_ctrl_nonce(0x0102030405060708, 9),
        vec![1, 2, 3, 4, 5, 6, 7, 8, 0, 0, 0, 0, 0, 0, 0, 9]
    );
    assert!(make_ctrl_nonce(1, 2) != make_ctrl_nonce(2, 1));
}

#[test]
fn items_survive_frames() {
    let item = text("héllo 目录");
    assert_eq!(item.type_byte(), 0x01);
    assert_eq!(item.payload(), "héllo 目录".as_bytes());
    assert_eq!(ClipboardItem::from_frame(item.type_byte(), item.payload()), Ok(item));
}

#[test]
fn bad_frames_say_why() {
    assert_eq!(
        ClipboardItem::from_frame(0x01, vec![b'a', 0xff]),
        Err("invalid utf-8 text: invalid utf-8 sequence of 1 bytes from index 1".to_string())
    );
    assert_eq!(
        ClipboardItem::from_frame(0x0a, vec![]),
        Err("unknown frame type 0x0a".to_string())
    );
    assert_eq!(
        ClipboardItem::from_frame(0xf3, vec![]),
        Err("unknown frame type 0xf3".to_string())
    );
    assert_eq!(invalid_text("why"), "invalid utf-8 text: why");
}

#[test]
fn item_hash_is_fnv1a() {
    assert_eq!(text("a").hash(), 0x082f4307b4e8c4d7);
    assert_eq!(text("hello").hash(), 0xe65788c860f9c52c);
    assert!(text("a").hash() != text("b").hash());
}

#[test]
fn frames_are_read_as_written() {
    let f = encode_frame(0x10, b"abc");
    assert_eq!(f, vec![0x10, 0, 0, 0, 3, b'a', b'b', b'c']);
    let header: [u8; 5] = f[..5].try_into().unwrap();
    assert_eq!(decode_header(&header), Ok((0x10, 3)));
    assert_eq!(decode_header(&[1, 1, 0, 0, 0]), Ok((1, 16 * 1024 * 1024)));
    assert_eq!(
        decode_header(&[1, 1, 0, 0, 1]),
        Err("frame too large: 16777217".to_string())
    );
    assert!(offer_fits(15 * 1024 * 1024) && !offer_fits(15 * 1024 * 1024 + 1));
}

#[test]
fn clipboard_programs_are_read() {
    assert_eq!(unix_try_read(true, b"hi".to_vec()), Some("hi".to_string()));
    assert_eq!(unix_try_read(false, b"hi".to_vec()), None);
    assert_eq!(unix_try_read(true, vec![]), None);
    assert_eq!(unix_try_read(true, vec![0xff]), None);
    let s = |t: &str| Some(t.to_string());
    assert_eq!(read_local_clipboard(s("a"), s("b")), Some(text("a")));
    assert_eq!(read_local_clipboard(None, s("b")), Some(text("b")));
    assert_eq!(read_local_clipboard(None, None), None);
    assert_eq!(item_of_text("x".to_string()), Some(text("x")));
    assert_eq!(item_of_text(String::new()), None);
}

#[test]
fn one_written_clipboard_is_enough() {
    let bad = |m: &str| Err::<(), String>(m.to_string());
    assert_eq!(write_local_clipboard(Ok(()), bad("x")), Ok(()));
    assert_eq!(write_local_clipboard(bad("x"), Ok(())), Ok(()));
    assert_eq!(
        write_local_clipboard(bad("spawn \"x\""), bad("y")),
        Err("both xclip and wl-copy failed: Err(\"spawn \\\"x\\\"\") / Err(\"y\")".to_string())
    );
    assert_eq!(both_failed("1", "2"), "both xclip and wl-copy failed: Err(1) / Err(2)");
}

#[test]
fn nothing_is_echoed() {
    let mut g = EchoGuard::new();
    let a = text("a");
    assert!(g.poll(&a));
    assert!(!g.poll(&a));
    assert!(g.sends(&a));
    assert_eq!(item_frame(&g, &a), Some(vec![1, 0, 0, 0, 1, b'a']));
    let b = text("b");
    g.receive(&b);
    assert!(!g.poll(&b));
    assert!(!g.sends(&b));
    assert_eq!(item_frame(&g, &b), None);
    assert!(g.poll(&a));
    assert!(!g.poll(&b));
}

#[test]
fn frames_are_dispatched() {
    match dispatch_frame(0x01, b"hi".to_vec()) {
        FrameAction::SetText(item) => assert_eq!(item, text("hi")),
        _ => panic!("not text"),
    }
    match dispatch_frame(0x01, vec![0x80]) {
        FrameAction::BadText(m) => assert!(m.starts_with("invalid utf-8 text: ")),
        _ => panic!("not bad text"),
    }
    match dispatch_frame(0x10, b"{}".to_vec()) {
        FrameAction::Offer(p) => assert_eq!(p, b"{}"),
        _ => panic!("not an offer"),
    }
    assert!(matches!(dispatch_frame(0x11, vec![]), FrameAction::Revoke));
    assert!(matches!(dispatch_frame(0x02, vec![]), FrameAction::Unknown));
}

#[test]
fn received_text_is_remembered_and_nothing_else_is() {
    let mut guard = EchoGuard::new();
    let hi = text("hi");
    assert!(guard.sends(&hi));
    match take_frame(&mut guard, 0x01, b"hi".to_vec()) {
        FrameAction::SetText(item) => assert_eq!(item, hi),
        _ => panic!("text"),
    }
    assert_eq!(guard, EchoGuard { synced: Some(hi.hash()), seen: None });
    assert!(!guard.sends(&hi) && !guard.poll(&hi) && !guard.poll(&hi));
    let before = guard;
    assert!(matches!(take_frame(&mut guard, 0x01, vec![0xff]), FrameAction::BadText(_)));
    assert!(matches!(take_frame(&mut guard, 0x10, b"{}".to_vec()), FrameAction::Offer(_)));
    assert!(matches!(take_frame(&mut guard, 0x11, vec![]), FrameAction::Revoke));
    assert!(matches!(take_frame(&mut guard, 0x7f, b"hi".to_vec()), FrameAction::Unknown));
    assert_eq!(guard, before);
}

#[test]
fn offers_are_accepted_or_refused() {
    let good = Manifest { session_id: 4, entries: vec![] };
    match accept_offer(good.clone()) {
        Ok(OwnerMsg::SetOffer(m)) => assert_eq!(m, good),
        _ => panic!("refused"),
    }
    let bad = Manifest {
        session_id: 4,
        entries: vec![Entry { file_id: 0, relpath: "/x".into(), size: 0, is_dir: false }],
    };
    match accept_offer(bad) {
        Err(why) => assert_eq!(why, "unsafe relpath: \"/x\""),
        Ok(_) => panic!("accepted"),
    }
    assert_eq!(offer_frame(b"[]"), Some(vec![0x10, 0, 0, 0, 2, b'[', b']']));
    assert_eq!(offer_frame(&vec![0u8; 15 * 1024 * 1024 + 1]), None);
}

#[test]
fn new_files_open_a_new_session() {
    let mut g = OfferGuard::new();
    assert_eq!(g.poll(None), OfferChange::Same);
    assert_eq!(g.poll(Some(11)), OfferChange::Offer(1));
    assert_eq!(g.poll(Some(11)), OfferChange::Same);
    assert_eq!(g.poll(Some(12)), OfferChange::Offer(2));
    assert_eq!(g.poll(None), OfferChange::Withdraw(3));
    assert_eq!(g.poll(None), OfferChange::Same);
    assert_eq!(g.poll(Some(12)), OfferChange::Offer(4));
    assert!(files_enabled("k") && !files_enabled(""));
}

#[test]
fn data_targets_take_the_host() {
    assert_eq!(data_target(Some("10.0.0.2:4644"), 4645), "10.0.0.2:4645");
    assert_eq!(data_target(Some("[::1]:4644"), 9), "[::1]:9");
    assert_eq!(data_target(Some("nohost"), 4645), "127.0.0.1:4645");
    assert_eq!(data_target(None, 65535), "127.0.0.1:65535");
    assert_eq!(data_target(Some(":1"), 2), ":2");
}

#[test]
fn clipboard_owner_steps() {
    let target = "h:1".to_string();
    let key = b"k".to_vec();
    let formats = OfferFormats { descriptor: 1, contents: 2, dropeffect: 3 };
    let step = |e: OwnerEvent| run_owner(e, &target, &key, formats);
    let m = Manifest { session_id: 4, entries: vec![] };
    match step(OwnerEvent::Message(OwnerMsg::SetOffer(m.clone()))) {
        OwnerAction::Publish(o) => {
            assert_eq!(o.manifest, m);
            assert_eq!((o.target.as_str(), o.key.as_slice()), ("h:1", b"k".as_slice()));
            assert_eq!((o.cf_descriptor, o.cf_contents, o.cf_dropeffect), (1, 2, 3));
        }
        _ => panic!("not published"),
    }
    assert!(matches!(step(OwnerEvent::Message(OwnerMsg::Clear)), OwnerAction::Clear));
    assert!(matches!(step(OwnerEvent::NoMessage), OwnerAction::Wait));
    assert!(matches!(step(OwnerEvent::Disconnected), OwnerAction::Stop));
    assert!(matches!(step(OwnerEvent::WindowMessage(WM_QUIT)), OwnerAction::Stop));
    assert!(matches!(step(OwnerEvent::WindowMessage(5)), OwnerAction::Dispatch));
    assert!(matches!(step(OwnerEvent::NoWindowMessage), OwnerAction::Poll));
}

#[test]
fn version_is_described() {
    assert_eq!(git_describe(Some((true, b" v0.10-3-gabc\n".to_vec()))), "v0.10-3-gabc");
    assert_eq!(git_describe(Some((false, b"v1".to_vec()))), "unknown");
    assert_eq!(git_describe(Some((true, b" \n".to_vec()))), "unknown");
    assert_eq!(git_describe(Some((true, vec![0xff]))), "unknown");
    assert_eq!(git_describe(None), "unknown");
}
