//! Offering files: finding, listing, packing and serving them.
use lan_mouse::bytes::{order_of_one, ByteOrder};
use lan_mouse::clipsync::data_object::{
    make_formatetc, new_file_data_object, DataError, DataReply, FileDataObject, TYMED_HGLOBAL,
    TYMED_ISTREAM,
};
use lan_mouse::clipsync::data_server::{open_status, Answer, ServerState};
use lan_mouse::clipsync::descriptor::{
    build_file_group_descriptor, pack_file_group, FD_ATTRIBUTES, FD_FILESIZE, FD_PROGRESSUI, FD_SIZE,
    FD_UNICODE, FILE_ATTRIBUTE_DIRECTORY,
};
use lan_mouse::clipsync::handshake::DataReq;
use lan_mouse::clipsync::manifest::{Entry, Manifest, MAX_MANIFEST_ENTRIES};
use lan_mouse::clipsync::order::{comes_first, sort_order};
use lan_mouse::clipsync::stream::{new_com_stream, FilePuller, StreamStatus};
use lan_mouse::clipsync::sync::{OfferChange, OfferGuard};
use lan_mouse::clipsync::uri_list::{
    clipboard_files, files_hash, hex, line_path, offers_uri_list, parse_uri_list, percent_decode_bytes,
    read_clipboard_files, targets_offer_uri_list, uri_list_paths, ClipboardFiles,
};
use lan_mouse::clipsync::walk::{build_manifest, node_order, walk_goes_on, FsNode, NodeKind};
use std::collections::HashMap;

const HEADER: usize = 4;

fn read_cfilename(blob: &[u8], i: usize) -> String {
    let base = HEADER + i * FD_SIZE + 72;
    let mut units = Vec::new();
    let mut off = base;
    for _ in 0..260 {
        let u = u16::from_ne_bytes([blob[off], blob[off + 1]]);
        if u == 0 {
            break;
        }
        units.push(u);
        off += 2;
    }
    String::from_utf16(&units).unwrap()
}

fn u32_at(blob: &[u8], at: usize) -> u32 {
    u32::from_ne_bytes(blob[at..at + 4].try_into().unwrap())
}

fn entry_is_dir(blob: &[u8], i: usize) -> bool {
    u32_at(blob, HEADER + i * FD_SIZE + 36) & FILE_ATTRIBUTE_DIRECTORY != 0
}

fn entry_size(blob: &[u8], i: usize) -> u64 {
    let hi = u32_at(blob, HEADER + i * FD_SIZE + 64) as u64;
    let lo = u32_at(blob, HEADER + i * FD_SIZE + 68) as u64;
    (hi << 32) | lo
}

fn entry_flags(blob: &[u8], i: usize) -> u32 {
    u32_at(blob, HEADER + i * FD_SIZE)
}

fn file_entry(file_id: u32, relpath: &str, size: u64) -> Entry {
    Entry { file_id, relpath: relpath.into(), size, is_dir: false }
}

#[test]
fn filedescriptorw_is_592_bytes() {
    assert_eq!(FD_SIZE, 592);
}

#[test]
fn descriptor_has_correct_count_and_names() {
    let m = Manifest {
        session_id: 1,
        entries: vec![
            Entry {
                file_id: 0,
                relpath: "d".into(),
                size: 0,
                is_dir: true,
            },
            Entry {
                file_id: 1,
                relpath: "d/a.txt".into(),
                size: 5,
                is_dir: false,
            },
        ],
    };
    let blob = build_file_group_descriptor(&m);
    assert_eq!(blob.len(), HEADER + 2 * FD_SIZE);
    let cnt = u32::from_ne_bytes(blob[0..4].try_into().unwrap());
    assert_eq!(cnt, 2);
    assert_eq!(read_cfilename(&blob, 0), "d");
    assert_eq!(read_cfilename(&blob, 1), r"d\a.txt");
    assert!(entry_is_dir(&blob, 0));
    assert!(!entry_is_dir(&blob, 1));
    assert_eq!(entry_size(&blob, 0), 0);
    assert_eq!(entry_size(&blob, 1), 5);
    let want = FD_UNICODE | FD_FILESIZE | FD_ATTRIBUTES | FD_PROGRESSUI;
    assert_eq!(entry_flags(&blob, 0) & want, want);
    assert_eq!(entry_flags(&blob, 1) & want, want);
}

#[test]
fn descriptor_handles_large_size_and_unicode_name() {
    let big: u64 = (5u64 << 32) | 123;
    let m = Manifest {
        session_id: 2,
        entries: vec![Entry {
            file_id: 0,
            relpath: "目录/大文件.bin".into(),
            size: big,
            is_dir: false,
        }],
    };
    let blob = build_file_group_descriptor(&m);
    assert_eq!(entry_size(&blob, 0), big);
    assert_eq!(read_cfilename(&blob, 0), r"目录\大文件.bin");
}

#[test]
fn empty_manifest_is_just_count_zero() {
    let m = Manifest {
        session_id: 0,
        entries: vec![],
    };
    let blob = build_file_group_descriptor(&m);
    assert_eq!(blob.len(), HEADER);
    assert_eq!(u32::from_ne_bytes(blob[0..4].try_into().unwrap()), 0);
}

#[test]
fn descriptor_comes_in_either_order() {
    let m = Manifest { session_id: 1, entries: vec![file_entry(0, "é", 0x0102_0304_0506_0708)] };
    let little = pack_file_group(&m, ByteOrder::Little);
    let big = pack_file_group(&m, ByteOrder::Big);
    assert_eq!((little.len(), big.len()), (HEADER + FD_SIZE, HEADER + FD_SIZE));
    assert_eq!(little[..8], [1, 0, 0, 0, 0x44, 0x40, 0, 0x80]);
    assert_eq!(big[..8], [0, 0, 0, 1, 0x80, 0, 0x40, 0x44]);
    assert_eq!(little[HEADER + 64..HEADER + 74], [4, 3, 2, 1, 8, 7, 6, 5, 0xe9, 0]);
    assert_eq!(big[HEADER + 64..HEADER + 74], [1, 2, 3, 4, 5, 6, 7, 8, 0, 0xe9]);
    let here = order_of_one(&1u32.to_ne_bytes());
    assert_eq!(build_file_group_descriptor(&m), pack_file_group(&m, here));
    assert_eq!(order_of_one(&[1, 0, 0, 0]), ByteOrder::Little);
    assert_eq!(order_of_one(&[0, 0, 0, 1]), ByteOrder::Big);
}

#[test]
fn descriptor_cuts_long_names_and_encodes_pairs() {
    let long = "x".repeat(300);
    let m = Manifest {
        session_id: 0,
        entries: vec![file_entry(0, &long, 1), file_entry(1, "😀/é", 2)],
    };
    let blob = build_file_group_descriptor(&m);
    assert_eq!(read_cfilename(&blob, 0), "x".repeat(259));
    assert_eq!(blob[HEADER + 590..HEADER + 592], [0, 0]);
    assert_eq!(read_cfilename(&blob, 1), "😀\\é");
    assert_eq!(
        blob[HEADER + FD_SIZE + 72..HEADER + FD_SIZE + 80],
        [0x3d, 0xd8, 0x00, 0xde, 0x5c, 0x00, 0xe9, 0x00]
    );
}

#[test]
fn lists_one_below_the_other_keep_order_and_repetitions() {
    let a = "file:///b\nhttp://x/y\r\nfile:///a";
    let b = "file:///b\n\n# note\nfile://LOCALHOST/%ff%2Fc";
    let mut both = parse_uri_list(a);
    both.extend(parse_uri_list(b));
    assert_eq!(both, vec!["/b", "/a", "/b", "/\u{fffd}/c"]);
    assert_eq!(parse_uri_list(&format!("{a}\n{b}")), both);
    assert!(both.iter().all(|p| p.starts_with('/')));
    assert_eq!(parse_uri_list("file://localhost").len(), 0);
}

#[test]
fn parse_uri_list_decodes_and_filters() {
    let raw = "file:///home/u/a%20b.txt\r\nfile:///home/u/dir\r\n#comment\r\nhttp://x/y\r\n";
    let paths = parse_uri_list(raw);
    assert_eq!(paths, vec!["/home/u/a b.txt", "/home/u/dir"]);
}

#[test]
fn parse_uri_list_rejects_remote_host_accepts_localhost() {
    let raw = "file://otherhost/x\r\nfile:///home/u/b.txt\r\nfile://localhost/tmp/c.txt\r\n";
    let paths = parse_uri_list(raw);
    assert_eq!(paths, vec!["/home/u/b.txt", "/tmp/c.txt"]);
}

#[test]
fn uri_lines_edge_cases() {
    let path = |l: &str| {
        let chars: Vec<char> = l.chars().collect();
        line_path(&chars).map(|b| String::from_utf8_lossy(&b).into_owned())
    };
    assert_eq!(path("  file:///a\u{3000}\t"), Some("/a".to_string()));
    assert_eq!(path("file://LocalHost/a"), Some("/a".to_string()));
    assert_eq!(path("file:///"), Some("/".to_string()));
    assert_eq!(path("file://"), None);
    assert_eq!(path("file://localhost"), None);
    assert_eq!(path("FILE:///a"), None);
    assert_eq!(path(""), None);
    assert_eq!(path("# file:///a"), None);
    assert_eq!(uri_list_paths("file:///%E7%9B%AE\nfile:///b").len(), 2);
    assert_eq!(parse_uri_list("file:///%E7%9B%AE"), vec!["/目"]);
    assert_eq!(parse_uri_list("file:///%ff"), vec!["/\u{fffd}"]);
}

#[test]
fn percent_signs_are_decoded() {
    assert_eq!(percent_decode_bytes(b"a%41%7a%Zz%4"), b"aAz%Zz%4");
    assert_eq!(percent_decode_bytes(b"%41"), b"A");
    assert_eq!(percent_decode_bytes(b"%"), b"%");
    assert_eq!(percent_decode_bytes(b"%%41"), b"%A");
    assert_eq!(percent_decode_bytes(b""), b"");
    assert_eq!(hex(b'f'), Some(15));
    assert_eq!(hex(b'A'), Some(10));
    assert_eq!(hex(b'0'), Some(0));
    assert_eq!(hex(b'g'), None);
}

#[test]
fn clipboard_files_are_read() {
    let targets: &[u8] = b"TARGETS\n text/uri-list \nUTF8_STRING\n";
    let uris: &[u8] = b"file:///a\r\nfile:///b%20c\r\n";
    assert!(targets_offer_uri_list(targets));
    assert!(!targets_offer_uri_list(b"text/uri-list2\ntext/plain"));
    assert!(offers_uri_list("text/uri-list"));
    assert_eq!(
        read_clipboard_files(Some(targets), Some(uris)),
        Some(vec!["/a".to_string(), "/b c".to_string()])
    );
    assert_eq!(read_clipboard_files(None, Some(uris)), None);
    assert_eq!(read_clipboard_files(Some(targets), None), None);
    assert_eq!(read_clipboard_files(Some(b"text/plain"), Some(uris)), None);
    assert_eq!(read_clipboard_files(Some(targets), Some(b"http://x/y")), None);
}

#[test]
fn clipboard_contents_are_told_apart() {
    let targets: &[u8] = b"text/uri-list\n";
    let files = |r: ClipboardFiles| match r {
        ClipboardFiles::Files(paths) => Some(paths),
        _ => None,
    };
    assert_eq!(
        files(clipboard_files(Some(targets), Some(b"file:///a"))),
        Some(vec!["/a".to_string()])
    );
    assert!(matches!(clipboard_files(None, None), ClipboardFiles::Unknown));
    assert!(matches!(clipboard_files(Some(targets), None), ClipboardFiles::Unknown));
    assert!(matches!(clipboard_files(Some(b"text/plain"), None), ClipboardFiles::Other));
    assert!(matches!(clipboard_files(Some(targets), Some(b"# none")), ClipboardFiles::Other));
}

#[test]
fn an_offer_ends_when_text_is_copied() {
    let mut guard = OfferGuard::new();
    let mut state = ServerState::new();
    let built = build_manifest(1, &[node("/f", "f", NodeKind::File(9))]);
    assert_eq!(guard.poll(Some(5)), OfferChange::Offer(1));
    state.set_offer(1, built.paths);
    let req = DataReq { session_id: 1, file_id: 0, offset: 0 };
    assert!(matches!(state.answer(req), Answer::Open(_, 0)));
    assert_eq!(guard.poll(None), OfferChange::Withdraw(2));
    state.set_offer(2, HashMap::new());
    assert!(matches!(state.answer(req), Answer::Refuse(1)));
}

#[test]
fn files_hash_is_fnv1a() {
    assert_eq!(files_hash(&[]), 0xcbf29ce484222325);
    assert_eq!(
        files_hash(&["/a".to_string(), "/b c".to_string()]),
        0xe662699c6654cb5b
    );
    assert!(
        files_hash(&["/a".to_string(), "b".to_string()]) != files_hash(&["/ab".to_string()])
    );
}

fn node(path: &str, rel: &str, kind: NodeKind) -> FsNode {
    FsNode { path: path.as_bytes().to_vec(), relpath: Some(rel.to_string()), kind }
}

#[test]
fn walk_dir_produces_relpaths_and_dir_entries() {
    let root = node(
        "/t/myfolder",
        "myfolder",
        NodeKind::Dir(vec![
            node(
                "/t/myfolder/sub",
                "myfolder/sub",
                NodeKind::Dir(vec![node(
                    "/t/myfolder/sub/b.bin",
                    "myfolder/sub/b.bin",
                    NodeKind::File(2),
                )]),
            ),
            node("/t/myfolder/a.txt", "myfolder/a.txt", NodeKind::File(5)),
            node("/t/myfolder/empty", "myfolder/empty", NodeKind::Dir(vec![])),
        ]),
    );
    let built = build_manifest(99, &[root]);
    let by_rel: HashMap<_, _> = built
        .manifest
        .entries
        .iter()
        .map(|e| (e.relpath.clone(), e.clone()))
        .collect();
    assert!(by_rel["myfolder"].is_dir);
    assert!(by_rel["myfolder/empty"].is_dir);
    assert_eq!(by_rel["myfolder/a.txt"].size, 5);
    assert_eq!(by_rel["myfolder/sub/b.bin"].size, 2);
    for e in built.manifest.entries.iter().filter(|e| !e.is_dir) {
        assert!(built.paths.get(&e.file_id).is_some());
    }
    assert_eq!(built.manifest.session_id, 99);
    let order: Vec<&str> = built.manifest.entries.iter().map(|e| e.relpath.as_str()).collect();
    assert_eq!(
        order,
        vec![
            "myfolder",
            "myfolder/a.txt",
            "myfolder/empty",
            "myfolder/sub",
            "myfolder/sub/b.bin"
        ]
    );
    assert_eq!(built.paths.len(), 2);
    assert_eq!(built.paths[&4], b"/t/myfolder/sub/b.bin");
}

#[test]
fn walk_leaves_out_links_and_special_files() {
    let roots = vec![
        node("/l", "l", NodeKind::Symlink),
        node("/o", "o", NodeKind::Other),
        FsNode { path: b"/n".to_vec(), relpath: None, kind: NodeKind::File(1) },
        node("/w", "d\\w", NodeKind::File(3)),
    ];
    let built = build_manifest(1, &roots);
    assert_eq!(built.manifest.entries, vec![file_entry(0, "d/w", 3)]);
}

#[test]
fn walk_stops_at_its_limits() {
    let mut deep = node("/x", "x", NodeKind::File(1));
    for _ in 0..70 {
        deep = node("/d", "d", NodeKind::Dir(vec![deep]));
    }
    let built = build_manifest(1, &[deep]);
    assert_eq!(built.manifest.entries.len(), 65);
    assert!(walk_goes_on(0, 64) && !walk_goes_on(0, 65));
    assert!(!walk_goes_on(MAX_MANIFEST_ENTRIES, 0));
    let many: Vec<FsNode> = (0..MAX_MANIFEST_ENTRIES + 5)
        .map(|_| node("/f", "f", NodeKind::File(0)))
        .collect();
    let full = build_manifest(1, &many);
    assert_eq!(full.manifest.entries.len(), MAX_MANIFEST_ENTRIES);
    assert_eq!(full.paths.len(), MAX_MANIFEST_ENTRIES);
    assert!(full.manifest.validate().is_ok());
}

#[test]
fn bytes_are_ordered_from_the_front() {
    assert!(comes_first(b"", b"a"));
    assert!(comes_first(b"a", b"a"));
    assert!(comes_first(b"a", b"ab"));
    assert!(comes_first(b"ab", b"b"));
    assert!(!comes_first(b"b", b"ab"));
    assert!(!comes_first(b"ab", b"a"));
    let keys: Vec<Vec<u8>> = [b"c".as_slice(), b"a", b"b", b"a", b"\xff", b""]
        .iter()
        .map(|k| k.to_vec())
        .collect();
    assert_eq!(sort_order(&keys), vec![5, 1, 3, 2, 0, 4]);
    let nodes = vec![node("/b", "b", NodeKind::Other), node("/a", "a", NodeKind::Other)];
    assert_eq!(node_order(&nodes), vec![1, 0]);
}

fn server(session_id: u32, file_id: u32) -> ServerState {
    let mut s = ServerState::new();
    let mut paths = HashMap::new();
    paths.insert(file_id, b"/tmp/a.bin".to_vec());
    s.set_offer(session_id, paths);
    s
}

/// The status and the bytes that a server with one file answers a request with.
fn serve(state: &ServerState, request: &[u8], key: &[u8], content: &[u8]) -> Option<(u8, Vec<u8>)> {
    match state.handle(request, key)? {
        Answer::Refuse(status) => Some((status, vec![])),
        Answer::Open(path, offset) => {
            assert_eq!(path, b"/tmp/a.bin");
            let from = (offset as usize).min(content.len());
            Some((open_status(true), content[from..].to_vec()))
        }
    }
}

#[test]
fn serves_bytes_from_offset_and_rejects_bad_key() {
    let state = server(7, 1);
    let key = b"k";
    let content = b"0123456789";
    let ask = |session_id: u32, file_id: u32, offset: u64, with: &[u8]| {
        let req = DataReq { session_id, file_id, offset }.encode(with);
        serve(&state, &req, key, content)
    };
    assert_eq!(ask(7, 1, 3, key), Some((0, b"3456789".to_vec())));
    assert_eq!(ask(7, 1, 0, b"wrong"), None);
    assert_eq!(ask(999, 1, 0, key), Some((1, vec![])));
    assert_eq!(ask(7, 2, 0, key), Some((2, vec![])));
    assert!(state.handle(&[0u8; 52], key).is_none());
    assert_eq!(open_status(false), 3);
}

#[test]
fn a_new_offer_ends_the_old_session() {
    let mut state = server(1, 0);
    let old = DataReq { session_id: 1, file_id: 0, offset: 0 };
    assert!(matches!(state.answer(old), Answer::Open(_, 0)));
    let built = build_manifest(2, &[node("/f", "f", NodeKind::File(9))]);
    state.set_offer(2, built.paths);
    assert!(matches!(state.answer(old), Answer::Refuse(1)));
    let new = DataReq { session_id: 2, file_id: 0, offset: 4 };
    match state.answer(new) {
        Answer::Open(path, offset) => assert_eq!((path, offset), (b"/f".to_vec(), 4)),
        _ => panic!("refused"),
    }
}

/// Reads a file through a puller from a server, a few bytes at a time.
fn drain(mut puller: FilePuller, state: &ServerState, key: &[u8], content: &[u8]) -> Option<Vec<u8>> {
    let mut out = Vec::new();
    let (status, body) = serve(state, &puller.request(), key, content)?;
    puller.accept_status(status).ok()?;
    assert!(puller.is_connected());
    for chunk in body.chunks(4096) {
        out.extend_from_slice(chunk);
        puller.advance(chunk.len() as u64);
    }
    assert_eq!(puller.offset() as usize, content.len());
    Some(out)
}

#[test]
fn file_puller_reads_full_and_after_seek() {
    let content: Vec<u8> = (0..40_000u32).map(|i| (i % 251) as u8).collect();
    let key = b"shared-secret".to_vec();
    let state = server(5, 1);
    let new = || FilePuller::new("127.0.0.1:1".to_string(), key.clone(), 5, 1);
    let got_full = drain(new(), &state, &key, &content).unwrap();
    assert_eq!(got_full.len(), content.len());
    assert_eq!(got_full, content);
    let seek_off = 12_345usize;
    let mut p = new();
    p.seek_to(seek_off as u64);
    assert_eq!(p.offset(), seek_off as u64);
    assert_eq!(drain(p, &state, &key, &content).unwrap(), content[seek_off..]);
}

#[test]
fn file_puller_errors_on_bad_key() {
    let state = server(7, 1);
    let p = FilePuller::new("127.0.0.1:1".to_string(), b"wrong-key".to_vec(), 7, 1);
    assert_eq!(drain(p, &state, b"right-key", b"0123456789"), None);
    let mut q = FilePuller::new("t:2".to_string(), b"right-key".to_vec(), 8, 1);
    assert_eq!(q.target(), "t:2");
    assert_eq!(q.accept_status(1), Err("server status 1".to_string()));
    assert!(!q.is_connected());
}

#[test]
fn seeking_keeps_the_connection_in_place() {
    let mut p = FilePuller::new("t".to_string(), vec![], 1, 1);
    p.accept_status(0).unwrap();
    p.advance(10);
    p.seek_to(10);
    assert!(p.is_connected());
    p.seek_to(3);
    assert!(!p.is_connected() && p.offset() == 3);
}

#[test]
fn streams_end_at_their_size_only() {
    let mut s = new_com_stream("t".to_string(), vec![1], 4, 2, 10);
    assert_eq!(s.finish_read(Some(7)), (StreamStatus::Good, 7));
    assert_eq!(s.finish_read(Some(0)), (StreamStatus::ReadFault, 0));
    assert_eq!(s.finish_read(None), (StreamStatus::ReadFault, 0));
    assert_eq!(s.finish_read(Some(3)), (StreamStatus::Good, 3));
    assert_eq!(s.finish_read(Some(0)), (StreamStatus::EndOfFile, 0));
    assert_eq!(s.seek(4, 0), Some(4));
    assert_eq!(s.seek(-1, 1), Some(3));
    assert_eq!(s.seek(0, 1), Some(3));
    assert_eq!(s.seek(-2, 2), Some(8));
    assert_eq!(s.seek(-100, 1), Some(0));
    assert_eq!(s.seek(-5, 0), Some(0));
    assert_eq!(s.seek(5, 3), None);
    assert_eq!(s.puller.offset(), 0);
}

fn data_object() -> FileDataObject {
    let m = Manifest {
        session_id: 11,
        entries: vec![
            Entry { file_id: 0, relpath: "d".into(), size: 0, is_dir: true },
            file_entry(1, "d/report.bin", 50),
        ],
    };
    new_file_data_object(m, "h:1".to_string(), b"key".to_vec(), 100, 101, 102)
}

#[test]
fn data_object_gives_its_formats() {
    let o = data_object();
    match o.get_data(100, -1) {
        Ok(DataReply::Bytes(b)) => assert_eq!(b, build_file_group_descriptor(&o.manifest)),
        _ => panic!("no list"),
    }
    match o.get_data(102, -1) {
        Ok(DataReply::Bytes(b)) => assert_eq!(b, 1u32.to_ne_bytes()),
        _ => panic!("no effect"),
    }
    match o.get_data(101, 1) {
        Ok(DataReply::Stream(s)) => {
            assert_eq!(s.size, 50);
            let expected = DataReq { session_id: 11, file_id: 1, offset: 0 }.encode(b"key");
            assert_eq!(s.puller.request(), expected);
            assert_eq!(s.puller.target(), "h:1");
        }
        _ => panic!("no stream"),
    }
    let refused = |cf: u16, lindex: i32| match o.get_data(cf, lindex) {
        Err(e) => e,
        Ok(_) => panic!("given"),
    };
    assert_eq!(refused(101, -1), DataError::Index);
    assert_eq!(refused(101, 2), DataError::Index);
    assert_eq!(refused(101, 0), DataError::Format);
    assert_eq!(refused(7, 0), DataError::Format);
    assert!(o.query_get_data(100) && o.query_get_data(101) && o.query_get_data(102));
    assert!(!o.query_get_data(99));
    assert!(!o.async_mode && !o.operating);
}

#[test]
fn formats_are_enumerated() {
    let o = data_object();
    let all = vec![
        make_formatetc(100, TYMED_HGLOBAL, -1),
        make_formatetc(101, TYMED_ISTREAM, -1),
        make_formatetc(102, TYMED_HGLOBAL, -1),
    ];
    assert_eq!(o.formats(), all);
    assert!(o.enum_format_etc(2).is_none());
    let mut e = o.enum_format_etc(1).unwrap();
    assert_eq!(e.next(2), (all[..2].to_vec(), true));
    let mut copy = e.duplicate();
    assert_eq!(e.next(2), (all[2..].to_vec(), false));
    assert_eq!(e.next(1), (vec![], false));
    assert_eq!(e.next(0), (vec![], true));
    assert_eq!(copy.next(1), (all[2..].to_vec(), true));
    e.reset();
    e.skip(1);
    assert_eq!(e.next(1), (all[1..2].to_vec(), true));
    e.skip(u32::MAX);
    assert_eq!(e.next(1), (vec![], false));
}
