use cog_tiles::codec::ByteOrder;
use cog_tiles::cog::{Cog, CogHeader, Warning};
use cog_tiles::parser::{CogParser, Phase, Step};
use cog_tiles::errors::{CogErr, FormatError, LogicError, TransportError};
use cog_tiles::reader::{FetchRequest, Reader};
use cog_tiles::value::TagValue;

fn u16_bytes(order: ByteOrder, v: u16) -> Vec<u8> {
    match order {
        ByteOrder::LittleEndian => v.to_le_bytes().to_vec(),
        ByteOrder::BigEndian => v.to_be_bytes().to_vec(),
    }
}

fn u32_bytes(order: ByteOrder, v: u32) -> Vec<u8> {
    match order {
        ByteOrder::LittleEndian => v.to_le_bytes().to_vec(),
        ByteOrder::BigEndian => v.to_be_bytes().to_vec(),
    }
}

fn u64_bytes(order: ByteOrder, v: u64) -> Vec<u8> {
    match order {
        ByteOrder::LittleEndian => v.to_le_bytes().to_vec(),
        ByteOrder::BigEndian => v.to_be_bytes().to_vec(),
    }
}

/// One entry to write: tag, field type, count and the encoded values.
struct Field {
    tag: u16,
    field_type: u16,
    count: u32,
    data: Vec<u8>,
}

/// Writes a header and a chain of directories; values over four bytes go after each
/// directory. `data_at` forces the offset of each external value when given.
fn build(order: ByteOrder, magic: u16, ifds: &[Vec<Field>]) -> Vec<u8> {
    let mut out = match order {
        ByteOrder::LittleEndian => b"II".to_vec(),
        ByteOrder::BigEndian => b"MM".to_vec(),
    };
    out.extend(u16_bytes(order, magic));
    out.extend(u32_bytes(order, 8));
    for (n, fields) in ifds.iter().enumerate() {
        let start = out.len();
        let data_start = start + 2 + 12 * fields.len() + 4;
        let mut data: Vec<u8> = Vec::new();
        out.extend(u16_bytes(order, fields.len() as u16));
        for f in fields {
            out.extend(u16_bytes(order, f.tag));
            out.extend(u16_bytes(order, f.field_type));
            out.extend(u32_bytes(order, f.count));
            if f.data.len() <= 4 {
                let mut inline = f.data.clone();
                inline.resize(4, 0);
                out.extend(inline);
            } else {
                out.extend(u32_bytes(order, (data_start + data.len()) as u32));
                data.extend(f.data.iter());
            }
        }
        let next = if n + 1 < ifds.len() { data_start + data.len() } else { 0 };
        out.extend(u32_bytes(order, next as u32));
        out.extend(data);
    }
    out
}

/// Runs a parse against an in-memory resource, answering each fetch with the bytes the
/// resource has (fewer where it ends). Returns the result and the fetches made.
fn run(file: &[u8], reader: Reader, max_ifds: u64) -> (Result<Cog, CogErr>, Vec<FetchRequest>) {
    let mut parser = CogParser::new(reader, max_ifds);
    let mut fetches = Vec::new();
    loop {
        match parser.step() {
            Err(e) => return (Err(e), fetches),
            Ok(Step::Continue) => {}
            Ok(Step::Fetch(req)) => {
                fetches.push(req);
                let start = (req.offset as usize).min(file.len());
                let end = (req.offset as usize + req.length as usize).min(file.len());
                if let Err(e) = parser.supply(req, file[start..end].to_vec()) {
                    return (Err(e), fetches);
                }
            }
            Ok(Step::Done) => {
                let cog = parser.finish().expect("a finished parse holds a document");
                return (Ok(cog), fetches);
            }
        }
    }
}

fn all_types(order: ByteOrder) -> Vec<Field> {
    let mut long = u32_bytes(order, 0xDEADBEEF);
    long.extend(u32_bytes(order, 7));
    let mut rational = u32_bytes(order, 72);
    rational.extend(u32_bytes(order, 1));
    let mut srational = u32_bytes(order, (-3i32) as u32);
    srational.extend(u32_bytes(order, 4));
    let mut short = u16_bytes(order, 0x1234);
    short.extend(u16_bytes(order, 0xFFFF));
    vec![
        Field { tag: 254, field_type: 1, count: 3, data: vec![1, 2, 3] },
        Field { tag: 256, field_type: 2, count: 6, data: b"hello\0".to_vec() },
        Field { tag: 257, field_type: 3, count: 2, data: short },
        Field { tag: 258, field_type: 4, count: 2, data: long },
        Field { tag: 259, field_type: 5, count: 1, data: rational },
        Field { tag: 262, field_type: 6, count: 2, data: vec![0xFF, 5] },
        Field { tag: 273, field_type: 7, count: 4, data: vec![9, 8, 7, 6] },
        Field { tag: 277, field_type: 8, count: 1, data: u16_bytes(order, (-2i16) as u16) },
        Field { tag: 278, field_type: 9, count: 1, data: u32_bytes(order, (-100000i32) as u32) },
        Field { tag: 279, field_type: 10, count: 1, data: srational },
        Field { tag: 282, field_type: 11, count: 1, data: u32_bytes(order, 1.5f32.to_bits()) },
        Field { tag: 283, field_type: 12, count: 1, data: u64_bytes(order, (-2.25f64).to_bits()) },
    ]
}

fn expected_values() -> Vec<TagValue> {
    vec![
        TagValue::Byte(vec![1, 2, 3]),
        TagValue::Ascii("hello".to_string()),
        TagValue::Short(vec![0x1234, 0xFFFF]),
        TagValue::Long(vec![0xDEADBEEF, 7]),
        TagValue::Rational(vec![(72, 1)]),
        TagValue::SByte(vec![-1, 5]),
        TagValue::Undefined(vec![9, 8, 7, 6]),
        TagValue::SShort(vec![-2]),
        TagValue::SLong(vec![-100000]),
        TagValue::SRational(vec![(-3, 4)]),
        TagValue::Float(vec![1.5f32.to_bits()]),
        TagValue::Double(vec![(-2.25f64).to_bits()]),
    ]
}

fn values_of(cog: &Cog) -> Vec<TagValue> {
    cog.ifds[0].entries.iter().map(|e| e.value.clone().unwrap()).collect()
}

fn url() -> String {
    "memory://document.tif".to_string()
}

#[test]
fn round_trip_all_field_types_both_orders() {
    let mut decoded = Vec::new();
    for order in [ByteOrder::LittleEndian, ByteOrder::BigEndian] {
        let file = build(order, 42, &[all_types(order)]);
        let (res, _) = run(&file, Reader::new(&url()), 16);
        let cog = res.unwrap();
        assert_eq!(cog.header, CogHeader { byteorder: order, ifd_offset: 8 });
        assert_eq!(cog.ifds.len(), 1);
        assert_eq!(cog.ifds[0].count, 12);
        assert_eq!(cog.ifds[0].offset, 8);
        assert!(cog.warnings.is_empty());
        let values = values_of(&cog);
        assert_eq!(values, expected_values());
        for (e, f) in cog.ifds[0].entries.iter().zip(all_types(order)) {
            assert_eq!(e.entry.tag, f.tag);
            assert_eq!(e.entry.field_type, f.field_type);
            assert_eq!(e.entry.count, f.count);
            assert!(e.known_tag);
        }
        decoded.push(values);
    }
    assert_eq!(decoded[0], decoded[1]);
}

#[test]
fn inline_and_offset_boundary() {
    let order = ByteOrder::LittleEndian;
    let mut file = b"II".to_vec();
    file.extend(u16_bytes(order, 42));
    file.extend(u32_bytes(order, 8));
    file.extend(u16_bytes(order, 2));
    // four bytes: inline
    file.extend(u16_bytes(order, 254));
    file.extend(u16_bytes(order, 1));
    file.extend(u32_bytes(order, 4));
    file.extend([10, 11, 12, 13]);
    // five bytes: at offset 200
    file.extend(u16_bytes(order, 256));
    file.extend(u16_bytes(order, 1));
    file.extend(u32_bytes(order, 5));
    file.extend(u32_bytes(order, 200));
    file.extend(u32_bytes(order, 0));
    file.resize(200, 0);
    file.extend([1, 2, 3, 4, 5]);

    let (res, fetches) = run(&file, Reader::with_policy(&url(), 1, 1, 1), 16);
    let cog = res.unwrap();
    assert_eq!(cog.ifds[0].entries[0].value, Some(TagValue::Byte(vec![10, 11, 12, 13])));
    assert_eq!(cog.ifds[0].entries[1].value, Some(TagValue::Byte(vec![1, 2, 3, 4, 5])));
    let at = |o: u64, l: u64| FetchRequest { offset: o, length: l, needed: l };
    assert_eq!(
        fetches,
        vec![at(0, 8), at(8, 2), at(10, 12), at(22, 12), at(200, 5), at(34, 4)]
    );
    assert_eq!(fetches.iter().filter(|f| f.offset >= 38).count(), 1);
}

#[test]
fn chain_of_one_directory_ends() {
    let order = ByteOrder::BigEndian;
    let fields = vec![Field { tag: 256, field_type: 3, count: 1, data: u16_bytes(order, 512) }];
    let file = build(order, 42, &[fields]);
    let (res, _) = run(&file, Reader::new(&url()), 16);
    let cog = res.unwrap();
    assert_eq!(cog.ifds.len(), 1);
    assert_eq!(cog.ifds[0].next_ifd_offset, 0);
    assert_eq!(cog.ifds[0].entries[0].value, Some(TagValue::Short(vec![512])));
}

#[test]
fn chain_of_two_directories_in_order() {
    let order = ByteOrder::LittleEndian;
    let first = vec![Field { tag: 256, field_type: 4, count: 1, data: u32_bytes(order, 1024) }];
    let second = vec![
        Field { tag: 256, field_type: 4, count: 1, data: u32_bytes(order, 512) },
        Field { tag: 305, field_type: 2, count: 8, data: b"gdal 3\0\0".to_vec() },
    ];
    let file = build(order, 42, &[first, second]);
    let (res, _) = run(&file, Reader::with_policy(&url(), 4, 2, 64), 16);
    let cog = res.unwrap();
    assert_eq!(cog.ifds.len(), 2);
    assert_eq!(cog.ifds[0].next_ifd_offset as u32, cog.ifds[1].offset);
    assert_eq!(cog.ifds[1].count, 2);
    assert_eq!(cog.ifds[0].entries[0].value, Some(TagValue::Long(vec![1024])));
    assert_eq!(cog.ifds[1].entries[0].value, Some(TagValue::Long(vec![512])));
    assert_eq!(cog.ifds[1].entries[1].value, Some(TagValue::Ascii("gdal 3\0".to_string())));
}

#[test]
fn malformed_magic_is_rejected() {
    let file = vec![0x49, 0x49, 0x2B, 0x00, 8, 0, 0, 0];
    assert_eq!(CogHeader::new(&file), Err(FormatError::BadMagic { found: 43 }));
    let mut parser = CogParser::new(Reader::new(&url()), 16);
    let req = match parser.step() {
        Ok(Step::Fetch(req)) => req,
        other => panic!("expected a fetch, got {:?}", other),
    };
    parser.supply(req, file.clone()).unwrap();
    assert_eq!(parser.step(), Err(CogErr::Format(FormatError::BadMagic { found: 43 })));
    assert_eq!(parser.phase, Phase::Failed);
    assert_eq!(parser.step(), Ok(Step::Done));
    assert!(parser.finish().is_none());
}

#[test]
fn header_errors() {
    assert_eq!(
        CogHeader::new(b"XY*\0\x08\0\0\0"),
        Err(FormatError::BadByteOrderMarker { found: 0x5859 })
    );
    assert_eq!(
        CogHeader::new(b"II*\0"),
        Err(FormatError::Truncated { needed: 8, available: 4 })
    );
    assert_eq!(
        CogHeader::new(&[0x4D, 0x4D, 0, 42, 0, 0, 1, 0]),
        Ok(CogHeader { byteorder: ByteOrder::BigEndian, ifd_offset: 256 })
    );
    let (res, _) = run(b"II*\0", Reader::new(&url()), 16);
    assert_eq!(
        res,
        Err(CogErr::Transport(TransportError::ShortRead { expected: 8, received: 4 }))
    );
}

#[test]
fn unknown_tag_and_field_type_are_warnings() {
    let order = ByteOrder::LittleEndian;
    let fields = vec![
        Field { tag: 0xFFFF, field_type: 3, count: 1, data: u16_bytes(order, 5) },
        Field { tag: 256, field_type: 13, count: 1, data: u32_bytes(order, 77) },
        Field { tag: 257, field_type: 4, count: 1, data: u32_bytes(order, 9) },
    ];
    let file = build(order, 42, &[fields]);
    let (res, _) = run(&file, Reader::new(&url()), 16);
    let cog = res.unwrap();
    let entries = &cog.ifds[0].entries;
    assert_eq!(entries.len(), 3);
    assert!(!entries[0].known_tag);
    assert_eq!(entries[0].value, Some(TagValue::Short(vec![5])));
    assert!(entries[1].known_tag);
    assert_eq!(entries[1].value, None);
    assert_eq!(entries[2].value, Some(TagValue::Long(vec![9])));
    assert_eq!(
        cog.warnings,
        vec![
            Warning::UnknownTag { directory: 0, tag: 0xFFFF },
            Warning::UnsupportedFieldType { directory: 0, tag: 256, field_type: 13 },
        ]
    );
}

#[test]
fn invalid_ascii_fails_the_parse() {
    let order = ByteOrder::BigEndian;
    let fields = vec![Field { tag: 305, field_type: 2, count: 5, data: vec![b'a', 0xFF, 0xFE, b'b', 0] }];
    let file = build(order, 42, &[fields]);
    let (res, _) = run(&file, Reader::new(&url()), 16);
    assert_eq!(res, Err(CogErr::Format(FormatError::InvalidEncoding)));
}

#[test]
fn directory_cycle_is_detected() {
    let order = ByteOrder::LittleEndian;
    let mut file = build(order, 42, &[vec![Field { tag: 256, field_type: 3, count: 1, data: u16_bytes(order, 1) }]]);
    // point the only directory back at itself
    let next_at = 8 + 2 + 12;
    file[next_at..next_at + 4].copy_from_slice(&u32_bytes(order, 8));
    let (res, _) = run(&file, Reader::new(&url()), 16);
    assert_eq!(res, Err(CogErr::Logic(LogicError::DirectoryCycle { offset: 8 })));
}

#[test]
fn directory_limit_is_enforced() {
    let order = ByteOrder::LittleEndian;
    let one = || vec![Field { tag: 256, field_type: 3, count: 1, data: u16_bytes(order, 1) }];
    let file = build(order, 42, &[one(), one(), one()]);
    let (res, _) = run(&file, Reader::new(&url()), 2);
    assert_eq!(res, Err(CogErr::Logic(LogicError::TooManyDirectories { limit: 2 })));
    let (res, _) = run(&file, Reader::new(&url()), 3);
    assert_eq!(res.unwrap().ifds.len(), 3);
}

#[test]
fn whole_buffer_parse_matches_fetched_parse() {
    for order in [ByteOrder::LittleEndian, ByteOrder::BigEndian] {
        let file = build(order, 42, &[all_types(order)]);
        let (fetched, _) = run(&file, Reader::with_policy(&url(), 16, 2, 256), 16);
        let whole = Cog::parse_buffer(&url(), file.clone(), 16).unwrap();
        assert_eq!(values_of(&whole), expected_values());
        assert_eq!(fetched.unwrap(), whole);
    }
}

#[test]
fn whole_buffer_single_directory() {
    let order = ByteOrder::LittleEndian;
    let fields = vec![Field { tag: 257, field_type: 4, count: 1, data: u32_bytes(order, 77) }];
    let file = build(order, 42, &[fields]);
    let cog = Cog::parse_buffer(&url(), file, 16).unwrap();
    assert_eq!(cog.ifds.len(), 1);
    assert_eq!(cog.ifds[0].entries[0].value, Some(TagValue::Long(vec![77])));
}

#[test]
fn whole_buffer_errors() {
    assert_eq!(
        Cog::parse_buffer(&url(), vec![0x49, 0x49, 0x2B, 0x00, 8, 0, 0, 0], 16),
        Err(CogErr::Format(FormatError::BadMagic { found: 43 }))
    );
    assert_eq!(
        Cog::parse_buffer(&url(), b"MM\0*".to_vec(), 16),
        Err(CogErr::Format(FormatError::Truncated { needed: 8, available: 4 }))
    );
    assert_eq!(
        Cog::parse_buffer(&url(), b"II*\0\x08\0\0\0".to_vec(), 16),
        Err(CogErr::Format(FormatError::Truncated { needed: 2, available: 0 }))
    );
    let order = ByteOrder::BigEndian;
    let fields = vec![Field { tag: 305, field_type: 2, count: 9, data: b"truncated".to_vec() }];
    let mut file = build(order, 42, &[fields]);
    file.truncate(file.len() - 3);
    assert_eq!(
        Cog::parse_buffer(&url(), file.clone(), 16),
        Err(CogErr::Format(FormatError::Truncated { needed: 9, available: 6 }))
    );
}

#[test]
fn whole_buffer_directory_past_the_end() {
    assert_eq!(
        Cog::parse_buffer(&url(), vec![0x49, 0x49, 0x2A, 0x00, 0x64, 0x00, 0x00, 0x00], 16),
        Err(CogErr::Format(FormatError::Truncated { needed: 2, available: 0 }))
    );
}

#[test]
fn whole_buffer_chain_errors() {
    let order = ByteOrder::LittleEndian;
    let one = || vec![Field { tag: 256, field_type: 3, count: 1, data: u16_bytes(order, 1) }];
    let file = build(order, 42, &[one(), one(), one()]);
    assert_eq!(
        Cog::parse_buffer(&url(), file.clone(), 2),
        Err(CogErr::Logic(LogicError::TooManyDirectories { limit: 2 }))
    );
    assert_eq!(Cog::parse_buffer(&url(), file, 3).unwrap().ifds.len(), 3);

    let mut cyclic = build(order, 42, &[one()]);
    let next_at = 8 + 2 + 12;
    cyclic[next_at..next_at + 4].copy_from_slice(&u32_bytes(order, 8));
    assert_eq!(
        Cog::parse_buffer(&url(), cyclic, 16),
        Err(CogErr::Logic(LogicError::DirectoryCycle { offset: 8 }))
    );

    // the next pointer itself lies past the end
    let mut cut = build(order, 42, &[one()]);
    cut.truncate(8 + 2 + 12 + 2);
    assert_eq!(
        Cog::parse_buffer(&url(), cut, 16),
        Err(CogErr::Format(FormatError::Truncated { needed: 4, available: 2 }))
    );
}
