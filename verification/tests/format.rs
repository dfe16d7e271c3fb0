//! Binary layout tests: big-endian readers, record headers, whole-file
//! parsing, and per-container decompression through the real codecs.
use std::io::Write;

use anyroot::container::basket_header;
use anyroot::container::tbasket2vec;
use anyroot::container::Container;
use anyroot::decompress::decompress;
use anyroot::errors::RootError;
use anyroot::file::file_header;
use anyroot::file::directory;
use anyroot::file::tkey_header;
use anyroot::file::RootFile;
use anyroot::header::CompressedObjHeader;
use anyroot::header::Directory;
use anyroot::header::KeyHeaders;
use anyroot::header::ObjHeader;
use anyroot::header::ObjName;
use anyroot::header::RecordHeader;
use anyroot::header::RootHeader;
use anyroot::header::TreeObj;
use anyroot::reader::read_be;
use anyroot::reader::read_string;
use anyroot::source::Source;

fn push_u16(v: &mut Vec<u8>, x: u16) {
    v.extend_from_slice(&x.to_be_bytes());
}

fn push_u32(v: &mut Vec<u8>, x: u32) {
    v.extend_from_slice(&x.to_be_bytes());
}

fn push_u64(v: &mut Vec<u8>, x: u64) {
    v.extend_from_slice(&x.to_be_bytes());
}

fn push_str(v: &mut Vec<u8>, s: &str) {
    v.push(s.len() as u8);
    v.extend_from_slice(s.as_bytes());
}

/// A record (key) header with 4-byte pointers.
fn push_key_header(
    v: &mut Vec<u8>,
    total_size: u32,
    uncomp_len: u32,
    key_len: u16,
    seek_key: u32,
    class_name: &str,
    obj_name: &str,
    title: &str,
) {
    push_u32(v, total_size);
    push_u16(v, 4);
    push_u32(v, uncomp_len);
    push_u32(v, 0);
    push_u16(v, key_len);
    push_u16(v, 0);
    push_u32(v, seek_key);
    push_u32(v, 0);
    push_str(v, class_name);
    push_str(v, obj_name);
    push_str(v, title);
}

#[test]
fn read_be_values() {
    let bytes = [0x12u8, 0x34, 0x56, 0x78, 0x9a];
    assert_eq!(read_be(&bytes, 0, 1), 0x12);
    assert_eq!(read_be(&bytes, 0, 2), 0x1234);
    assert_eq!(read_be(&bytes, 1, 4), 0x3456789a);
    assert_eq!(read_be(&bytes, 0, 0), 0);
}

#[test]
fn read_string_short_and_extended() {
    let mut v = vec![5u8];
    v.extend_from_slice(b"hello");
    let (s, n) = read_string(&v, 0).unwrap();
    assert_eq!(s, "hello");
    assert_eq!(n, 6);

    // An extended-length string: prefix 255, then a 4-byte length.
    let mut w = vec![255u8, 0, 0, 1, 44];
    for _ in 0..300 {
        w.push(b'x');
    }
    let (s2, n2) = read_string(&w, 0).unwrap();
    assert_eq!(s2.len(), 300);
    assert_eq!(n2, 305);

    // Truncated content.
    let bad = vec![9u8, b'a'];
    assert_eq!(read_string(&bad, 0).unwrap_err(), RootError::TruncatedInput);

    // Content that is not valid UTF-8.
    let nonutf = vec![2u8, 0xff, 0xfe];
    assert_eq!(
        read_string(&nonutf, 0).unwrap_err(),
        RootError::UnsupportedStructure
    );
}

#[test]
fn file_header_small_and_magic() {
    // A compact (63-byte) header: version below the large-file
    // threshold, so every pointer is 4 bytes.
    let mut v = Vec::new();
    v.extend_from_slice(b"root");
    push_u32(&mut v, 61400); // version
    push_u32(&mut v, 100); // begin
    push_u32(&mut v, 5000); // end
    push_u32(&mut v, 0); // seek_free
    push_u32(&mut v, 0); // nbytes_free
    push_u32(&mut v, 1); // n_entries_free
    push_u32(&mut v, 20); // n_bytes_name
    v.push(4); // pointer size
    push_u32(&mut v, 101); // compression
    push_u32(&mut v, 900); // seek_info
    push_u32(&mut v, 300); // nbytes_info
    push_u16(&mut v, 1); // uuid version
    v.extend_from_slice(&[7u8; 16]); // uuid
    assert_eq!(v.len(), 63);
    let (h, n) = file_header(&v).unwrap();
    assert_eq!(n, 63);
    assert_eq!(h.version, 61400);
    assert_eq!(h.begin, 100);
    assert_eq!(h.end, 5000);
    assert_eq!(h.n_bytes_name, 20);
    assert_eq!(h.pointer_size, 4);
    assert_eq!(h.compression, 101);
    assert_eq!(h.seek_info, 900);
    assert_eq!(h.seek_dir, 120);

    let mut bad = v.clone();
    bad[0] = b'x';
    assert_eq!(file_header(&bad).unwrap_err(), RootError::BadMagic);
    assert_eq!(file_header(&v[..40]).unwrap_err(), RootError::TruncatedInput);
}

#[test]
fn file_header_large_pointers() {
    // A version above 1000000 widens the pointer fields to 8 bytes.
    let mut v = Vec::new();
    v.extend_from_slice(b"root");
    push_u32(&mut v, 1061400);
    push_u32(&mut v, 100);
    push_u64(&mut v, 1 << 33); // end
    push_u64(&mut v, 0); // seek_free
    push_u32(&mut v, 0);
    push_u32(&mut v, 1);
    push_u32(&mut v, 0);
    v.push(8);
    push_u32(&mut v, 0);
    push_u64(&mut v, 1 << 34); // seek_info
    push_u32(&mut v, 300);
    push_u16(&mut v, 1);
    v.extend_from_slice(&[9u8; 16]);
    assert_eq!(v.len(), 75);
    let (h, n) = file_header(&v).unwrap();
    assert_eq!(n, 75);
    assert_eq!(h.end, 1 << 33);
    assert_eq!(h.seek_info, 1 << 34);
}

#[test]
fn directory_versioned_pointers() {
    let mut v = Vec::new();
    push_u16(&mut v, 5); // version below 1000: 4-byte pointers
    push_u32(&mut v, 11);
    push_u32(&mut v, 22);
    push_u32(&mut v, 333); // n_bytes_keys
    push_u32(&mut v, 0);
    push_u32(&mut v, 100);
    push_u32(&mut v, 0);
    push_u32(&mut v, 444); // seek_keys
    let (d, n) = directory(&v, 0).unwrap();
    assert_eq!(n, 30);
    assert_eq!(d.n_bytes_keys, 333);
    assert_eq!(d.seek_keys, 444);

    let mut w = Vec::new();
    push_u16(&mut w, 1005); // 8-byte pointers
    push_u32(&mut w, 0);
    push_u32(&mut w, 0);
    push_u32(&mut w, 1);
    push_u32(&mut w, 2);
    push_u64(&mut w, 1 << 40);
    push_u64(&mut w, 0);
    push_u64(&mut w, 1 << 41);
    let (d2, n2) = directory(&w, 0).unwrap();
    assert_eq!(n2, 42);
    assert_eq!(d2.seek_dir, 1 << 40);
    assert_eq!(d2.seek_keys, 1 << 41);
}

#[test]
fn tkey_header_strings() {
    let mut v = Vec::new();
    push_key_header(&mut v, 500, 400, 40, 77, "TTree", "events", "my title");
    let (h, n) = tkey_header(&v, 0).unwrap();
    assert_eq!(h.total_size, 500);
    assert_eq!(h.uncomp_len, 400);
    assert_eq!(h.key_len, 40);
    assert_eq!(h.seek_key, 77);
    assert_eq!(h.class_name, "TTree");
    assert_eq!(h.obj_name, "events");
    assert_eq!(h.title, "my title");
    assert_eq!(n, 26 + 3 + 5 + 6 + 8);
}

#[test]
fn root_file_single_item() {
    // A whole miniature file: header, directory, and a key list naming
    // one tree item.
    let mut keylist_obj = Vec::new();
    push_u32(&mut keylist_obj, 1);
    // The item's record: 8 stored bytes after its 48-byte key.
    push_key_header(&mut keylist_obj, 56, 8, 48, 242, "TTree", "events", "");

    // The key list record at offset 200: key header (29 + 1 = 48 bytes
    // with a one-character title), then the object bytes.
    let mut keys_record = Vec::new();
    let obj_len = keylist_obj.len() as u32;
    push_key_header(
        &mut keys_record,
        48 + obj_len,
        obj_len,
        48,
        200,
        "TList",
        "keys",
        "x",
    );
    keys_record.extend_from_slice(&keylist_obj);

    let mut data = Vec::new();
    data.extend_from_slice(b"root");
    push_u32(&mut data, 61400);
    push_u32(&mut data, 100); // begin
    push_u32(&mut data, 1000); // end
    push_u32(&mut data, 0);
    push_u32(&mut data, 0);
    push_u32(&mut data, 0);
    push_u32(&mut data, 0); // n_bytes_name: directory right at begin
    data.push(4);
    push_u32(&mut data, 0);
    push_u32(&mut data, 200); // seek_info: reuse the key list record
    push_u32(&mut data, 0);
    push_u16(&mut data, 1);
    data.extend_from_slice(&[0u8; 16]);
    assert_eq!(data.len(), 63);
    data.resize(100, 0);
    // Directory at 100 pointing its key list at 200.
    push_u16(&mut data, 5);
    push_u32(&mut data, 0);
    push_u32(&mut data, 0);
    push_u32(&mut data, keys_record.len() as u32);
    push_u32(&mut data, 0);
    push_u32(&mut data, 100);
    push_u32(&mut data, 0);
    push_u32(&mut data, 200);
    data.resize(200, 0);
    data.extend_from_slice(&keys_record);

    // Eight bytes of record data for the tree item at offset 290: its
    // key says seek_key 242 and key_len 48, so the data begins at 290.
    data.resize(290, 0);
    data.extend_from_slice(&[1, 2, 3, 4, 5, 6, 7, 8]);

    let source = Source::new(data.clone());
    let spare = Source::new(data);
    let rf = RootFile::new(source).unwrap();
    assert_eq!(rf.items().len(), 1);
    let item = rf.resolve_table().unwrap();
    assert_eq!(item.name(), "`events` of type `TTree`");
    assert_eq!(
        item.verbose_info(),
        "key record: class `TTree`, object `events`, title ``"
    );

    // The item's object bytes: eight stored bytes after its key.
    let buf = item.get_buffer(&spare).unwrap();
    assert_eq!(buf, vec![1, 2, 3, 4, 5, 6, 7, 8]);
    let ictx = item.get_context(&spare).unwrap();
    assert_eq!(ictx.offset, 50);
    assert_eq!(ictx.s, buf);

    // The streamer-information pointer goes through the same record
    // machinery: its object bytes and key-length offset come back.
    let ctx = rf.get_streamer_context().unwrap();
    assert_eq!(ctx.offset, 50);
    assert_eq!(ctx.s, keylist_obj);
}

#[test]
fn root_file_bad_magic() {
    let data = b"toor____________________________".to_vec();
    assert!(RootFile::new(Source::new(data)).is_err());
}

#[test]
fn source_fetch_bounds() {
    let s = Source::new(vec![1, 2, 3, 4, 5]);
    assert_eq!(s.fetch(1, 3).unwrap(), vec![2, 3, 4]);
    assert_eq!(s.fetch(0, 5).unwrap(), vec![1, 2, 3, 4, 5]);
    assert_eq!(s.fetch(3, 3).unwrap_err(), RootError::TruncatedInput);
    assert_eq!(s.size(), 5);
}

#[test]
fn zlib_container_round_trip() {
    // A compressed container: the 9-byte frame header with the `ZL`
    // magic, then a real zlib stream.  Decoding must reproduce the
    // original payload, proving the payload is really inflated.
    let payload: Vec<u8> = vec![7u8; 200];
    let mut enc = flate2::write::ZlibEncoder::new(Vec::new(), flate2::Compression::default());
    enc.write_all(&payload).unwrap();
    let stream = enc.finish().unwrap();

    let mut frame = vec![b'Z', b'L', 8, 0, 0, 0, 0, 0, 0];
    frame.extend_from_slice(&stream);
    let out = decompress(&frame).unwrap();
    assert_eq!(out, payload);

    // The same stream inside a basket whose declared uncompressed
    // length exceeds the stored payload.
    let key_len: u16 = 29;
    let mut basket = Vec::new();
    push_key_header(&mut basket, 0, payload.len() as u32, key_len, 0, "", "", "");
    push_u16(&mut basket, 1);
    push_u32(&mut basket, 0);
    push_u32(&mut basket, 1);
    push_u32(&mut basket, 200);
    push_u32(&mut basket, key_len as u32 + payload.len() as u32);
    basket.push(0);
    basket.extend_from_slice(&frame);
    let (n_entries, values) = tbasket2vec(&basket).unwrap();
    assert_eq!(n_entries, 200);
    assert_eq!(values, payload);
}

#[test]
fn xz_container_round_trip() {
    let payload: Vec<u8> = (0..100u32).flat_map(|x| x.to_be_bytes()).collect();
    let mut stream = Vec::new();
    lzma_rs::xz_compress(&mut payload.as_slice(), &mut stream).unwrap();
    let mut frame = vec![b'X', b'Z', 0, 0, 0, 0, 0, 0, 0];
    frame.extend_from_slice(&stream);
    assert_eq!(decompress(&frame).unwrap(), payload);
}

#[test]
fn unknown_scheme_is_decompress_error() {
    let frame = vec![b'Q', b'Q', 0, 0, 0, 0, 0, 0, 0, 1, 2, 3];
    assert_eq!(decompress(&frame).unwrap_err(), RootError::DecompressError);
    // A frame shorter than its own header cannot name a scheme.
    assert_eq!(decompress(&[b'Z']).unwrap_err(), RootError::DecompressError);
    // A zlib frame with a corrupt stream fails, not aborts.
    let bad = vec![b'Z', b'L', 8, 0, 0, 0, 0, 0, 0, 0xff, 0xff];
    assert_eq!(decompress(&bad).unwrap_err(), RootError::DecompressError);
}

#[test]
fn container_raw_data_in_memory_and_on_disk() {
    let payload = vec![9u8, 8, 7, 6];
    let key_len: u16 = 29;
    let mut basket = Vec::new();
    push_key_header(&mut basket, 0, payload.len() as u32, key_len, 0, "", "", "");
    push_u16(&mut basket, 1);
    push_u32(&mut basket, 0);
    push_u32(&mut basket, 1);
    push_u32(&mut basket, 4);
    push_u32(&mut basket, key_len as u32 + payload.len() as u32);
    basket.push(0);
    basket.extend_from_slice(&payload);

    let src = Source::new(basket.clone());
    let (n1, v1) = Container::InMemory(basket.clone()).raw_data(&src).unwrap();
    assert_eq!(n1, 4);
    assert_eq!(v1, payload);
    let (n2, v2) = Container::OnDisk(0, basket.len() as u64)
        .raw_data(&src)
        .unwrap();
    assert_eq!(n2, 4);
    assert_eq!(v2, payload);
}

#[test]
fn basket_header_fields() {
    let payload = vec![1u8, 2, 3];
    let key_len: u16 = 29;
    let mut basket = Vec::new();
    push_key_header(&mut basket, 0, 3, key_len, 0, "", "", "");
    push_u16(&mut basket, 7); // version
    push_u32(&mut basket, 64); // buf_size
    push_u32(&mut basket, 1); // entry_size
    push_u32(&mut basket, 3); // n_entry_buf
    push_u32(&mut basket, key_len as u32 + 3); // last
    basket.push(1); // flag
    basket.extend_from_slice(&payload);
    let b = basket_header(&basket).unwrap();
    assert_eq!(b.version, 7);
    assert_eq!(b.buf_size, 64);
    assert_eq!(b.entry_size, 1);
    assert_eq!(b.n_entry_buf, 3);
    assert_eq!(b.last, key_len as u32 + 3);
    assert_eq!(b.flag, 1);
    assert_eq!(b.buf, payload);
    assert!(!b.is_compressed());
    assert_eq!(b.useful_bytes(), 3);
}

#[test]
fn compact_header_and_records() {
    // RootHeader in the compact layout.
    let mut v = Vec::new();
    v.extend_from_slice(b"root");
    for i in 0..7u32 {
        push_u32(&mut v, 100 + i);
    }
    v.push(4);
    push_u32(&mut v, 201);
    push_u32(&mut v, 202);
    push_u32(&mut v, 203);
    v.extend_from_slice(&[5u8; 16]);
    assert_eq!(v.len(), 61);
    let (h, n) = RootHeader::read(&v).unwrap();
    assert_eq!(n, 61);
    assert_eq!(h.version, 100);
    assert_eq!(h.begin, 101);
    assert_eq!(h.units, 4);
    assert_eq!(h.compress, 201);
    assert_eq!(h.seek_info, 202);
    assert_eq!(h.nbytes_info, 203);

    // A compact record header with its accessors.
    let mut r = Vec::new();
    push_u32(&mut r, 90); // nbytes
    push_u16(&mut r, 2);
    push_u32(&mut r, 58); // obj_len: 58 + 32 == 90 means stored plain
    push_u32(&mut r, 0);
    push_u16(&mut r, 32); // key_len
    push_u16(&mut r, 0);
    push_u32(&mut r, 10); // seek_key
    push_u32(&mut r, 0);
    r.push(1);
    r.push(b'T');
    r.push(1);
    r.push(b'n');
    r.push(1);
    r.push(b't');
    let (rec, consumed) = RecordHeader::read(&r, 0).unwrap();
    assert_eq!(consumed, 32);
    assert_eq!(rec.nbytes, 90);
    assert_eq!(rec.class_name, "T");
    assert_eq!(rec.data_offset(), 32);
    assert!(!rec.is_compressed());
    let mut mmap = vec![0u8; 64];
    mmap[42] = 99;
    let tail = rec.data_ptr(&mmap);
    assert_eq!(tail[0], 99);
    assert_eq!(tail.len(), 22);
}

#[test]
fn compact_directory_and_keys() {
    let mut v = Vec::new();
    push_u16(&mut v, 5);
    push_u32(&mut v, 0);
    push_u32(&mut v, 0);
    push_u32(&mut v, 64);
    push_u32(&mut v, 0);
    push_u32(&mut v, 1);
    push_u32(&mut v, 2);
    push_u32(&mut v, 3);
    let (d, n) = Directory::read(&v, 0).unwrap();
    assert_eq!(n, 30);
    assert_eq!(d.keys_offset(), 3);
    let mmap = vec![0u8, 1, 2, 3, 4, 5];
    assert_eq!(d.keys_ptr(&mmap), &[3, 4, 5]);

    // A key list holding one record walked by its declared length.
    let mut keys = Vec::new();
    push_u32(&mut keys, 1);
    let mut rec = Vec::new();
    push_u32(&mut rec, 40); // nbytes: walk 40 bytes
    push_u16(&mut rec, 2);
    push_u32(&mut rec, 8);
    push_u32(&mut rec, 0);
    push_u16(&mut rec, 32);
    push_u16(&mut rec, 0);
    push_u32(&mut rec, 0);
    push_u32(&mut rec, 0);
    rec.push(0);
    rec.push(0);
    rec.push(0);
    keys.extend_from_slice(&rec);
    keys.resize(4 + 40, 0);
    let (kh, end) = KeyHeaders::read(&keys).unwrap();
    assert_eq!(kh.count, 1);
    assert_eq!(end, 44);
}

#[test]
fn object_headers_and_tree() {
    let mut v = Vec::new();
    push_u16(&mut v, 3); // version
    push_u16(&mut v, 1); // version2
    push_u32(&mut v, 42); // id
    push_u32(&mut v, 0x3000); // bits
    v.push(4);
    v.extend_from_slice(b"name");
    v.push(5);
    v.extend_from_slice(b"title");
    let (o, n) = ObjName::read(&v, 0).unwrap();
    assert_eq!(n, v.len());
    assert_eq!(o.version, 3);
    assert_eq!(o.id, 42);
    assert_eq!(o.name, "name");
    assert_eq!(o.title, "title");

    let mut w = Vec::new();
    push_u16(&mut w, 9);
    w.extend_from_slice(&v);
    let (oh, n2) = ObjHeader::read(&w, 0).unwrap();
    assert_eq!(n2, w.len());
    assert_eq!(oh.version, 9);
    assert_eq!(oh.name.id, 42);

    // A tree object: version, named-object header, then the counters.
    let mut t = Vec::new();
    push_u16(&mut t, 20);
    t.extend_from_slice(&v);
    push_u64(&mut t, 250); // entries
    push_u64(&mut t, 9000); // totbytes
    push_u64(&mut t, 4000); // zipbytes
    push_u64(&mut t, 0); // savedbytes
    let (tree, n3) = TreeObj::read(&t, 0).unwrap();
    assert_eq!(n3, t.len());
    assert_eq!(tree.version, 20);
    assert_eq!(tree.entries, 250);
    assert_eq!(tree.totbytes, 9000);
    assert_eq!(tree.zipbytes, 4000);

    // The 9-byte compression frame header.
    let frame = [b'Z', b'L', 8, 1, 2, 3, 4, 5, 6, 0xaa];
    let (c, n4) = CompressedObjHeader::read(&frame, 0).unwrap();
    assert_eq!(n4, 9);
    assert_eq!(c.magic_bytes, [b'Z', b'L']);
    assert_eq!(c.header, [8, 1, 2, 3, 4, 5, 6]);
}

#[test]
fn unsupported_tag_error() {
    let tag = String::from("f16");
    assert_eq!(
        anyroot::batch::string_to_column_type(&tag).unwrap_err(),
        RootError::UnsupportedType
    );
    let ok = String::from("u64");
    assert!(anyroot::batch::string_to_column_type(&ok).is_ok());
}
