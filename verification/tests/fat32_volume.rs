//! End-to-end behaviour on an in-memory volume: mounting, directory
//! iteration, long-name lookup, reads, seeks and the error paths.

use fat32::vfat::{CachedDevice, Cluster, Entry, Partition, SeekFrom, Status, VFat};
use fat32::{Error, RamDisk};

fn put16(sector: &mut Vec<u8>, off: usize, v: u16) {
    sector[off] = (v & 0xFF) as u8;
    sector[off + 1] = (v >> 8) as u8;
}

fn put32(sector: &mut Vec<u8>, off: usize, v: u32) {
    sector[off] = (v & 0xFF) as u8;
    sector[off + 1] = ((v >> 8) & 0xFF) as u8;
    sector[off + 2] = ((v >> 16) & 0xFF) as u8;
    sector[off + 3] = ((v >> 24) & 0xFF) as u8;
}

/// Writes one UCS-2 unit of a long-name fragment. Unit `i` of 13 lives
/// at offsets 1, 14 and 28 in three groups.
fn put_lfn_unit(rec: &mut [u8; 32], i: usize, v: u16) {
    let off = if i < 5 {
        1 + 2 * i
    } else if i < 11 {
        14 + 2 * (i - 5)
    } else {
        28 + 2 * (i - 11)
    };
    rec[off] = (v & 0xFF) as u8;
    rec[off + 1] = (v >> 8) as u8;
}

/// A small volume: 512-byte device sectors, the partition at physical
/// sector 1, one reserved sector, one FAT sector, 8 sectors per
/// cluster. The root directory (cluster 2) holds one file named
/// `a_very_long_filename.txt` (two long-name fragments and one regular
/// entry) whose data is cluster 3: the digits `0123456789` followed by
/// zero bytes, with a recorded size of 10.
fn sample_image() -> Vec<Vec<u8>> {
    let mut sectors: Vec<Vec<u8>> = vec![vec![0u8; 512]; 19];

    // Master boot record: one FAT32 partition at sector 1, 18 sectors.
    sectors[0][446] = 0x00;
    sectors[0][446 + 4] = 0x0B;
    put32(&mut sectors[0], 446 + 8, 1);
    put32(&mut sectors[0], 446 + 12, 18);
    sectors[0][510] = 0x55;
    sectors[0][511] = 0xAA;

    // BIOS parameter block at the partition start.
    put16(&mut sectors[1], 11, 512); // bytes per sector
    sectors[1][13] = 8; // sectors per cluster
    put16(&mut sectors[1], 14, 1); // reserved sectors
    sectors[1][16] = 1; // number of FATs
    put32(&mut sectors[1], 32, 18); // total sectors
    put32(&mut sectors[1], 36, 1); // sectors per FAT
    put32(&mut sectors[1], 44, 2); // root directory cluster
    sectors[1][510] = 0x55;
    sectors[1][511] = 0xAA;

    // FAT at physical sector 2: clusters 2 and 3 both end their chains.
    put32(&mut sectors[2], 2 * 4, 0x0FFFFFF8);
    put32(&mut sectors[2], 3 * 4, 0x0FFFFFF8);

    // Root directory, cluster 2 (physical sectors 3..=10).
    let long_name = "a_very_long_filename.txt";
    let units: Vec<u16> = long_name.encode_utf16().collect();
    assert_eq!(units.len(), 24);

    // First physical fragment: positions 14..24, sequence 2 with bit 6.
    let mut frag2 = [0u8; 32];
    frag2[0] = 0x42;
    frag2[11] = 0x0F;
    for i in 0..13 {
        let k = 13 + i;
        let v = if k < 24 {
            units[k]
        } else if k == 24 {
            0x0000
        } else {
            0xFFFF
        };
        put_lfn_unit(&mut frag2, i, v);
    }

    // Second physical fragment: positions 1..13, sequence 1.
    let mut frag1 = [0u8; 32];
    frag1[0] = 0x01;
    frag1[11] = 0x0F;
    for i in 0..13 {
        put_lfn_unit(&mut frag1, i, units[i]);
    }

    // The regular entry: 8.3 name AVERYL~1.TXT, cluster 3, size 10.
    let mut regular = [0u8; 32];
    regular[..8].copy_from_slice(b"AVERYL~1");
    regular[8..11].copy_from_slice(b"TXT");
    regular[11] = 0x20; // archive
    put16_arr(&mut regular, 26, 3); // first cluster, low half
    regular[28] = 10; // file size

    sectors[3][..32].copy_from_slice(&frag2);
    sectors[3][32..64].copy_from_slice(&frag1);
    sectors[3][64..96].copy_from_slice(&regular);
    // Record 3 keeps its ID byte 0x00: end of directory.

    // File data, cluster 3 (physical sectors 11..=18).
    for (i, b) in b"0123456789".iter().enumerate() {
        sectors[11][i] = *b;
    }

    sectors
}

fn put16_arr(rec: &mut [u8; 32], off: usize, v: u16) {
    rec[off] = (v & 0xFF) as u8;
    rec[off + 1] = (v >> 8) as u8;
}

fn mount() -> VFat<RamDisk> {
    let disk = RamDisk::new(512, sample_image()).expect("well-formed image");
    VFat::from(disk).expect("mountable volume")
}

#[test]
fn mounting_reads_the_geometry() {
    let mut fs = mount();
    assert_eq!(fs.cluster_size(), 4096);
    assert_eq!(fs.root_cluster(), Cluster::from(2));
    let fe = fs.fat_entry(Cluster::from(2)).unwrap();
    assert_eq!(fe.status(), Status::Eoc(0x0FFFFFF8));
}

#[test]
fn long_name_is_reconstructed_and_found() {
    let mut fs = mount();
    let root = fs.root_dir();
    let mut it = root.entries(&mut fs).unwrap();
    let first = it.next_entry().expect("one entry");
    assert_eq!(first.name().as_str(), "a_very_long_filename.txt");
    assert!(it.next_entry().is_none());

    // Lookup is case-insensitive.
    let found = root.find(&mut fs, "A_VERY_LONG_FILENAME.TXT").unwrap();
    assert_eq!(found.name().as_str(), "a_very_long_filename.txt");
    assert!(found.as_file().is_some());

    let missing = root.find(&mut fs, "nowhere.txt").unwrap_err();
    assert_eq!(missing, Error::NotFound);
}

#[test]
fn whole_file_read_returns_its_bytes() {
    let mut fs = mount();
    let entry = fs.open("/a_very_long_filename.txt").unwrap();
    let mut file = entry.into_file().expect("a file");
    assert_eq!(file.size(), 10);
    // Reading 11 bytes yields only the 10 the file holds: end of file,
    // not an error.
    let bytes = file.read(&mut fs, 11).unwrap();
    assert_eq!(bytes, b"0123456789".to_vec());
    // At the end a read serves zero bytes.
    let empty = file.read(&mut fs, 4).unwrap();
    assert_eq!(empty.len(), 0);
}

#[test]
fn chunked_reads_equal_one_read() {
    let mut fs = mount();
    let mut a = fs.open("/a_very_long_filename.txt").unwrap().into_file().unwrap();
    let mut whole = fs.open("/a_very_long_filename.txt").unwrap().into_file().unwrap();

    let mut chunked: Vec<u8> = Vec::new();
    for piece in [3usize, 4, 3] {
        chunked.extend_from_slice(&a.read(&mut fs, piece).unwrap());
    }
    let single = whole.read(&mut fs, 10).unwrap();
    assert_eq!(chunked, single);
}

#[test]
fn seek_then_read_matches_suffix() {
    let mut fs = mount();
    let mut f = fs.open("/a_very_long_filename.txt").unwrap().into_file().unwrap();
    let all = f.read(&mut fs, 10).unwrap();
    for k in 0..=10u64 {
        let pos = f.seek(&mut fs, SeekFrom::Start(k)).unwrap();
        assert_eq!(pos, k);
        let tail = f.read(&mut fs, 10).unwrap();
        assert_eq!(tail, all[k as usize..].to_vec());
    }
}

#[test]
fn seek_bounds_are_enforced() {
    let mut fs = mount();
    let mut f = fs.open("/a_very_long_filename.txt").unwrap().into_file().unwrap();

    // Seeking exactly to the size succeeds and a read serves nothing.
    assert_eq!(f.seek(&mut fs, SeekFrom::Start(10)).unwrap(), 10);
    assert_eq!(f.read(&mut fs, 5).unwrap().len(), 0);

    // One past the end is rejected.
    assert_eq!(f.seek(&mut fs, SeekFrom::Start(11)).unwrap_err(), Error::InvalidInput);

    // A negative resultant offset is rejected in both relative modes.
    assert_eq!(f.seek(&mut fs, SeekFrom::End(-11)).unwrap_err(), Error::InvalidInput);
    assert_eq!(f.seek(&mut fs, SeekFrom::End(1)).unwrap_err(), Error::InvalidInput);
    f.seek(&mut fs, SeekFrom::Start(0)).unwrap();
    assert_eq!(f.seek(&mut fs, SeekFrom::Current(-1)).unwrap_err(), Error::InvalidInput);
    assert_eq!(f.seek(&mut fs, SeekFrom::Current(11)).unwrap_err(), Error::InvalidInput);
    assert_eq!(f.seek(&mut fs, SeekFrom::Current(10)).unwrap(), 10);
    assert_eq!(f.seek(&mut fs, SeekFrom::End(-10)).unwrap(), 0);
}

#[test]
fn path_walk_handles_dots_and_roots() {
    let mut fs = mount();
    assert_eq!(fs.open("relative").unwrap_err(), Error::InvalidInput);
    assert_eq!(fs.open("").unwrap_err(), Error::InvalidInput);
    assert_eq!(fs.open("/..").unwrap_err(), Error::InvalidInput);
    let root = fs.open("/").unwrap();
    assert!(root.as_dir().is_some());
    let same = fs.open("/./a_very_long_filename.txt").unwrap();
    assert!(same.as_file().is_some());
    assert_eq!(fs.open("/nothing").unwrap_err(), Error::NotFound);
    // A path component below a file cannot resolve.
    assert_eq!(
        fs.open("/a_very_long_filename.txt/deeper").unwrap_err(),
        Error::InvalidInput
    );
}

#[test]
fn write_path_is_refused() {
    let mut fs = mount();
    let mut f = fs.open("/a_very_long_filename.txt").unwrap().into_file().unwrap();
    assert_eq!(f.write(&mut fs, &vec![1, 2, 3]).unwrap_err(), Error::NotImplemented);
    assert_eq!(f.flush(&mut fs).unwrap_err(), Error::NotImplemented);
    assert_eq!(f.sync(&mut fs).unwrap_err(), Error::NotImplemented);
}

#[test]
fn reading_a_free_cluster_is_invalid_input() {
    let mut fs = mount();
    let err = fs.read_cluster(Cluster::from(4), 0, 16).unwrap_err();
    assert_eq!(err, Error::InvalidInput);
}

#[test]
fn chain_read_returns_whole_clusters() {
    let mut fs = mount();
    let data = fs.read_chain(Cluster::from(3)).unwrap();
    assert_eq!(data.len(), 4096);
    assert_eq!(&data[..10], b"0123456789");
    assert!(data[10..].iter().all(|b| *b == 0));
}

#[test]
fn size_beyond_chain_is_unexpected_eof() {
    let mut fs = mount();
    let entry = fs.open("/a_very_long_filename.txt").unwrap();
    let mut f = entry.into_file().unwrap();
    // Forge a size larger than the single-cluster chain provides.
    f.file_size = 5000;
    let err = f.read(&mut fs, 5000).unwrap_err();
    assert_eq!(err, Error::UnexpectedEof);
}

fn mount_error(image: Vec<Vec<u8>>) -> Error {
    let disk = RamDisk::new(512, image).unwrap();
    match VFat::from(disk) {
        Ok(_) => panic!("the broken image still mounted"),
        Err(e) => e,
    }
}

#[test]
fn bad_signatures_and_missing_partitions_fail_the_mount() {
    let mut image = sample_image();
    image[0][510] = 0;
    assert_eq!(mount_error(image), Error::BadSignature);

    let mut image = sample_image();
    image[0][446] = 0x77;
    assert_eq!(mount_error(image), Error::UnknownBootIndicator(0));

    let mut image = sample_image();
    image[0][446 + 4] = 0x07;
    assert_eq!(mount_error(image), Error::NotFound);

    let mut image = sample_image();
    image[1][510] = 0;
    assert_eq!(mount_error(image), Error::BadSignature);

    // A partition size that disagrees between the two records is fatal.
    let mut image = sample_image();
    image[0][446 + 12] = 99;
    assert_eq!(mount_error(image), Error::InvalidData);
}

#[test]
fn truncated_devices_fail_with_io() {
    let mut image = sample_image();
    image.truncate(1);
    assert_eq!(mount_error(image), Error::Io);
}

#[test]
fn the_file_lands_in_the_data_region() {
    // The file's bytes must be exactly the start of the physical data
    // region: data start sector + sectors-per-cluster * (3 - 2).
    let image = sample_image();
    let expected: Vec<u8> = image[11][..10].to_vec();
    let mut fs = mount();
    let mut f = fs.open("/a_very_long_filename.txt").unwrap().into_file().unwrap();
    assert_eq!(f.read(&mut fs, 10).unwrap(), expected);
}

#[test]
fn the_cache_serves_logical_sectors() {
    let image = sample_image();
    let sector0 = image[0].clone();
    let sector1 = image[1].clone();
    let disk = RamDisk::new(512, image).unwrap();
    let mut cache = CachedDevice::new(disk, Partition { start: 1, sector_size: 512 });
    // A sector below the partition start maps one to one.
    assert_eq!(cache.get(0).unwrap(), sector0);
    // The first logical sector of the partition is its boot record.
    assert_eq!(cache.get(1).unwrap(), sector1);
    // The same bytes come back from the cache, and get_mut serves them
    // too while marking the entry dirty.
    assert_eq!(cache.get(0).unwrap(), sector0);
    assert_eq!(cache.get_mut(1).unwrap(), sector1);
    // A sector beyond the device is an I/O failure.
    assert_eq!(cache.get(10_000).unwrap_err(), Error::Io);
}

#[test]
fn scaled_partitions_span_device_sectors() {
    // A partition whose logical sectors are 1024 bytes: each logical
    // sector is two device sectors.
    let mut sectors: Vec<Vec<u8>> = vec![vec![0u8; 512]; 6];
    for (n, row) in sectors.iter_mut().enumerate() {
        for b in row.iter_mut() {
            *b = n as u8;
        }
    }
    let expect0 = sectors[0].clone();
    let mut expect_scaled: Vec<u8> = sectors[2].clone();
    expect_scaled.extend_from_slice(&sectors[3]);
    let disk = RamDisk::new(512, sectors).unwrap();
    let mut cache = CachedDevice::new(disk, Partition { start: 2, sector_size: 1024 });
    assert_eq!(cache.get(0).unwrap(), expect0);
    // Logical sector 2 (the partition's first) concatenates device
    // sectors 2 and 3.
    assert_eq!(cache.get(2).unwrap(), expect_scaled);
    // Logical sector 3 is scaled and offset: device sectors 4 and 5.
    let got = cache.get(3).unwrap();
    assert_eq!(got.len(), 1024);
    assert!(got[..512].iter().all(|b| *b == 4));
    assert!(got[512..].iter().all(|b| *b == 5));
}

/// A second volume whose file spans two clusters: FAT maps 3 to 4 and
/// 4 to end-of-chain; the file's size is 5000 of the 8192 chained
/// bytes. Byte `i` of the file reads `(i % 251)` truncated to a byte.
fn two_cluster_image() -> Vec<Vec<u8>> {
    let mut sectors: Vec<Vec<u8>> = vec![vec![0u8; 512]; 27];

    sectors[0][446] = 0x00;
    sectors[0][446 + 4] = 0x0C;
    put32(&mut sectors[0], 446 + 8, 1);
    put32(&mut sectors[0], 446 + 12, 26);
    sectors[0][510] = 0x55;
    sectors[0][511] = 0xAA;

    put16(&mut sectors[1], 11, 512);
    sectors[1][13] = 8;
    put16(&mut sectors[1], 14, 1);
    sectors[1][16] = 1;
    put32(&mut sectors[1], 32, 26);
    put32(&mut sectors[1], 36, 1);
    put32(&mut sectors[1], 44, 2);
    sectors[1][510] = 0x55;
    sectors[1][511] = 0xAA;

    put32(&mut sectors[2], 2 * 4, 0x0FFFFFF8);
    put32(&mut sectors[2], 3 * 4, 4);
    put32(&mut sectors[2], 4 * 4, 0x0FFFFFFF);

    // Root directory: one regular entry BIG.BIN, cluster 3, size 5000.
    let mut regular = [0u8; 32];
    regular[..8].copy_from_slice(b"BIG     ");
    regular[8..11].copy_from_slice(b"BIN");
    regular[11] = 0x20;
    put16_arr(&mut regular, 26, 3);
    sectors[3][..32].copy_from_slice(&regular);
    put32(&mut sectors[3], 28, 5000); // the file size field of record 0

    // File data: clusters 3 (sectors 11..=18) and 4 (sectors 19..=26).
    for i in 0..8192usize {
        let sector = 11 + i / 512;
        sectors[sector][i % 512] = (i % 251) as u8;
    }

    sectors
}

fn mount_two_cluster() -> VFat<RamDisk> {
    let disk = RamDisk::new(512, two_cluster_image()).expect("well-formed image");
    VFat::from(disk).expect("mountable volume")
}

#[test]
fn reads_cross_cluster_boundaries() {
    let mut fs = mount_two_cluster();
    let mut f = fs.open("/big.bin").unwrap().into_file().unwrap();
    assert_eq!(f.size(), 5000);
    let whole = f.read(&mut fs, 6000).unwrap();
    assert_eq!(whole.len(), 5000);
    for (i, b) in whole.iter().enumerate() {
        assert_eq!(*b as usize, i % 251);
    }

    // The same bytes arrive when the reads straddle the boundary.
    f.seek(&mut fs, SeekFrom::Start(0)).unwrap();
    let mut pieces: Vec<u8> = Vec::new();
    pieces.extend_from_slice(&f.read(&mut fs, 4000).unwrap());
    pieces.extend_from_slice(&f.read(&mut fs, 96).unwrap());
    pieces.extend_from_slice(&f.read(&mut fs, 904).unwrap());
    assert_eq!(pieces, whole);

    // Seeking into the second cluster reads the right suffix.
    f.seek(&mut fs, SeekFrom::Start(4500)).unwrap();
    let tail = f.read(&mut fs, 500).unwrap();
    assert_eq!(tail, whole[4500..].to_vec());

    // read_chain serves both clusters in full.
    let chain = fs.read_chain(Cluster::from(3)).unwrap();
    assert_eq!(chain.len(), 8192);
    assert_eq!(&chain[..5000], &whole[..]);
}

#[test]
fn a_broken_link_mid_chain_is_invalid_data() {
    let mut image = two_cluster_image();
    // Cluster 3 now points at cluster 5, whose entry reads free.
    put32(&mut image[2], 3 * 4, 5);
    let disk = RamDisk::new(512, image).unwrap();
    let mut fs = VFat::from(disk).unwrap();
    let mut f = fs.open("/big.bin").unwrap().into_file().unwrap();
    let err = f.read(&mut fs, 5000).unwrap_err();
    assert_eq!(err, Error::InvalidData);
}
