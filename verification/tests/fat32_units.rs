//! Unit-level behaviour: FAT entry decoding, metadata bit fields,
//! alignment, byte-string buffers and the pure directory decoder.

use fat32::align::{align_down, align_up};
use fat32::atag::{Atag, Core, Mem};
use fat32::sd::{CardState, CheckPattern, OpMode, SupplyVoltage};
use fat32::bytestr::{decode_error_kind, errno, error_string, is_sep_byte, is_verbatim_sep, Buf,
    OsErrorKind, Slice};
use fat32::vfat::{decode_entries, Attributes, Cluster, Date, FatEntry, Metadata, Status, Time,
    Timestamp};

#[test]
fn test_status() {
    assert_eq!(FatEntry(0x00000000).status(), Status::Free);
    assert_eq!(FatEntry(0x10000000).status(), Status::Free);

    assert_eq!(
        FatEntry(0x000001F6).status(),
        Status::Data(Cluster::from(0x000001F6))
    );
    assert_eq!(
        FatEntry(0x200001E2).status(),
        Status::Data(Cluster::from(0x000001E2))
    );

    assert_eq!(FatEntry(0x0FFFFFF8).status(), Status::Eoc(0x0FFFFFF8));
    assert_eq!(FatEntry(0x3FFFFFF9).status(), Status::Eoc(0x0FFFFFF9));
}

#[test]
fn status_covers_every_class() {
    assert_eq!(FatEntry(0x00000001).status(), Status::Reserved);
    assert_eq!(FatEntry(0x0FFFFFF0).status(), Status::Reserved);
    assert_eq!(FatEntry(0x0FFFFFF6).status(), Status::Reserved);
    assert_eq!(FatEntry(0x0FFFFFF7).status(), Status::Bad);
    assert_eq!(FatEntry(0x00000002).status(), Status::Data(Cluster::from(2)));
    assert_eq!(FatEntry(0x0FFFFFEF).status(), Status::Data(Cluster::from(0x0FFFFFEF)));
    assert_eq!(FatEntry(0x0FFFFFFF).status(), Status::Eoc(0x0FFFFFFF));
}

#[test]
fn date_and_time_fields_decode() {
    // Year 2024 = 1980 + 44; month 7; day 15.
    let d = Date((44 << 9) | (7 << 5) | 15);
    assert_eq!(d.year(), 2024);
    assert_eq!(d.month(), 7);
    assert_eq!(d.day(), 15);

    // 13:37:42 stores 21 two-second units.
    let t = Time((13 << 11) | (37 << 5) | 21);
    assert_eq!(t.hour(), 13);
    assert_eq!(t.minute(), 37);
    assert_eq!(t.second(), 42);
    assert_eq!(Time::zero().hour(), 0);
    assert_eq!(Time::zero().minute(), 0);
    assert_eq!(Time::zero().second(), 0);
}

#[test]
fn attribute_bits_decode() {
    let a = Attributes(0x01 | 0x02 | 0x04 | 0x08);
    assert!(a.read_only());
    assert!(a.hidden());
    assert!(a.system());
    assert!(a.volume_id());
    assert!(a.lfn());
    assert!(!a.directory());
    assert!(!a.archive());

    let d = Attributes(0x10 | 0x20);
    assert!(d.directory());
    assert!(d.archive());
    assert!(!d.lfn());
}

#[test]
fn timestamp_second_rounds_additional_field() {
    let base = Timestamp {
        date: Date(0),
        time: Time(20),  // 40 seconds
        additional_in_10ms: 0,
    };
    assert_eq!(base.second(), 40);
    let up = Timestamp { additional_in_10ms: 150, ..base };
    assert_eq!(up.second(), 42);
    let down = Timestamp { additional_in_10ms: 49, ..base };
    assert_eq!(down.second(), 40);
    let half = Timestamp { additional_in_10ms: 50, ..base };
    assert_eq!(half.second(), 41);
}

#[test]
fn metadata_exposes_attribute_bits() {
    let m = Metadata {
        attributes: Attributes(0x03),
        created: Timestamp { date: Date(33), time: Time(7), additional_in_10ms: 5 },
        accessed: Timestamp { date: Date(1), time: Time(0), additional_in_10ms: 0 },
        modified: Timestamp { date: Date(2), time: Time(3), additional_in_10ms: 0 },
    };
    assert!(m.read_only());
    assert!(m.hidden());
    assert_eq!(m.created().date, Date(33));
    assert_eq!(m.accessed().date, Date(1));
    assert_eq!(m.modified().time, Time(3));
}

#[test]
fn align_rounds_to_powers_of_two() {
    assert_eq!(align_down(37, 16), 32);
    assert_eq!(align_down(32, 16), 32);
    assert_eq!(align_down(15, 16), 0);
    assert_eq!(align_up(37, 16), 48);
    assert_eq!(align_up(32, 16), 32);
    assert_eq!(align_up(1, 4096), 4096);
    assert_eq!(align_up(0, 8), 0);
}

#[test]
fn byte_buffers_keep_their_bytes() {
    let mut b = Buf::with_capacity(8);
    assert_eq!(b.inner, Vec::<u8>::new());
    assert!(b.capacity() >= b.inner.len());
    b.push_slice(&Slice { inner: vec![0xF0, b'h', b'i'] });
    assert_eq!(b.inner, vec![0xF0, b'h', b'i']);
    b.reserve(100);
    b.reserve_exact(10);
    b.shrink_to_fit();
    assert_eq!(b.inner, vec![0xF0, b'h', b'i']);
    let not_text = b.into_string();
    assert!(not_text.is_err());
    let back = not_text.unwrap_err();
    assert_eq!(back.inner, vec![0xF0, b'h', b'i']);

    let t = Buf::from_string(String::from("hello"));
    assert_eq!(t.inner, b"hello".to_vec());
    let s = t.into_string().unwrap();
    assert_eq!(s, "hello");

    let owned = Slice { inner: vec![1, 2, 3] }.to_owned();
    assert_eq!(owned.inner, vec![1, 2, 3]);

    let mut c = Buf { inner: vec![9, 9] };
    c.clear();
    assert_eq!(c.inner, Vec::<u8>::new());
}

#[test]
fn platform_error_helpers_are_fixed() {
    assert_eq!(decode_error_kind(0), OsErrorKind::Other);
    assert_eq!(decode_error_kind(-7), OsErrorKind::Other);
    assert_eq!(errno(), -1);
    assert_eq!(error_string(12), "unknown error");
    assert!(is_sep_byte(b'/'));
    assert!(!is_sep_byte(b'\\'));
    assert!(is_verbatim_sep(b'/'));
    assert!(!is_verbatim_sep(b'a'));
}

#[test]
fn end_marker_means_empty_directory() {
    // A stream that starts with an 0x00 ID yields no entries, whatever
    // trails it.
    let mut bytes = vec![0u8; 64];
    bytes[0] = 0x00;
    for k in 32..64 {
        bytes[k] = 0xAB;
    }
    let entries = decode_entries(&bytes).unwrap();
    assert_eq!(entries.len(), 0);
}

#[test]
fn deleted_records_are_skipped() {
    let mut bytes = vec![0u8; 64];
    bytes[0] = 0xE5;
    // Second record: end marker.
    bytes[32] = 0x00;
    let entries = decode_entries(&bytes).unwrap();
    assert_eq!(entries.len(), 0);
}

#[test]
fn plain_record_decodes_to_file_entry() {
    let mut bytes = vec![0u8; 64];
    // Record 0: regular entry "NOTE.TXT", archive attribute, cluster 5,
    // size 77.
    let name = b"NOTE    TXT";
    for (k, c) in name.iter().enumerate() {
        bytes[k] = *c;
    }
    bytes[11] = 0x20;
    bytes[26] = 5;
    bytes[28] = 77;
    bytes[32] = 0x00;
    let entries = decode_entries(&bytes).unwrap();
    assert_eq!(entries.len(), 1);
    assert_eq!(entries[0].name().as_str(), "NOTE.TXT");
    let f = entries[0].as_file().expect("a file entry");
    assert_eq!(f.file_size, 77);
    assert_eq!(f.start_cluster, Cluster::from(5));
}

#[test]
fn broken_fragment_run_is_invalid_data() {
    // An LFN fragment whose run claims two fragments but is followed by
    // the end marker.
    let mut bytes = vec![0u8; 64];
    bytes[0] = 0x42;
    bytes[11] = 0x0F;
    bytes[32] = 0x00;
    assert_eq!(decode_entries(&bytes).unwrap_err(), fat32::Error::InvalidData);
}

#[test]
fn boot_tags_expose_their_payloads() {
    let core = Core { flags: 1, page_size: 4096, root_dev: 0 };
    let mem = Mem { size: 0x1000_0000, start: 0 };
    assert_eq!(Atag::Core(core).core_tag(), Some(core));
    assert_eq!(Atag::Mem(mem).core_tag(), None);
    assert_eq!(Atag::Mem(mem).mem(), Some(mem));
    assert_eq!(Atag::Core(core).mem(), None);
    assert_eq!(
        Atag::Cmd(String::from("console=tty1")).cmd(),
        Some(String::from("console=tty1"))
    );
    assert_eq!(Atag::Unknown(7).cmd(), None);
    assert_eq!(Atag::End.cmd(), None);
}

#[test]
fn card_states_map_to_their_modes() {
    assert_eq!(CardState::Inactive.mode(), OpMode::Inactive);
    assert_eq!(CardState::Idle.mode(), OpMode::CardIdentification);
    assert_eq!(CardState::Ready.mode(), OpMode::CardIdentification);
    assert_eq!(CardState::Identification.mode(), OpMode::CardIdentification);
    assert_eq!(CardState::StandBy.mode(), OpMode::DataTransfer);
    assert_eq!(CardState::Programming.mode(), OpMode::DataTransfer);
}

#[test]
fn sd_fields_round_trip() {
    assert_eq!(SupplyVoltage::from_bits(0), SupplyVoltage::NotDefined);
    assert_eq!(SupplyVoltage::from_bits(1), SupplyVoltage::HighVoltage);
    assert_eq!(SupplyVoltage::from_bits(2), SupplyVoltage::LowVoltage);
    assert_eq!(SupplyVoltage::from_bits(9), SupplyVoltage::Reserved);
    assert_eq!(SupplyVoltage::HighVoltage.bits(), 1);
    assert_eq!(CheckPattern::recommended().0, 0b10101010);
}
