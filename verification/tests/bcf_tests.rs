//! End-to-end tests over in-memory BCF byte images: the fixtures are
//! assembled byte by byte from the wire format.

use std::rc::Rc;

use rust_bcf::BcfError;
use rust_bcf::BcfRecord;
use rust_bcf::BcfRecords;
use rust_bcf::GenotypeAllele;
use rust_bcf::Header;
use rust_bcf::Record;
use rust_bcf::TypedVec;

// ---- fixture building ----

fn typed_string(s: &[u8]) -> Vec<u8> {
    let mut out = Vec::new();
    if s.len() < 15 {
        out.push(((s.len() as u8) << 4) | 7);
    } else {
        assert!(s.len() < 256);
        out.push(0xF7);
        out.push(0x11);
        out.push(s.len() as u8);
    }
    out.extend_from_slice(s);
    out
}

fn typed_int8_vec(vals: &[i8]) -> Vec<u8> {
    assert!(vals.len() < 15);
    let mut out = Vec::new();
    out.push(((vals.len() as u8) << 4) | 1);
    for v in vals {
        out.push(*v as u8);
    }
    out
}

fn typed_int16_vec(vals: &[i16]) -> Vec<u8> {
    assert!(vals.len() < 15);
    let mut out = Vec::new();
    out.push(((vals.len() as u8) << 4) | 2);
    for v in vals {
        out.extend_from_slice(&v.to_le_bytes());
    }
    out
}

fn typed_int32_vec(vals: &[i32]) -> Vec<u8> {
    assert!(vals.len() < 15);
    let mut out = Vec::new();
    out.push(((vals.len() as u8) << 4) | 3);
    for v in vals {
        out.extend_from_slice(&v.to_le_bytes());
    }
    out
}

fn typed_float_vec(bits: &[u32]) -> Vec<u8> {
    assert!(bits.len() < 15);
    let mut out = Vec::new();
    out.push(((bits.len() as u8) << 4) | 5);
    for v in bits {
        out.extend_from_slice(&v.to_le_bytes());
    }
    out
}

fn typed_missing() -> Vec<u8> {
    vec![0x00]
}

fn info_pair(idx: i8, value: &[u8]) -> Vec<u8> {
    let mut out = vec![0x11, idx as u8];
    out.extend_from_slice(value);
    out
}

const QUAL_MISSING: u32 = 0x7F80_0001;

/// The shared region of a record.
#[allow(clippy::too_many_arguments)]
fn shared_region(
    chrom: i32,
    pos: i32,
    rlen: i32,
    qual_bits: u32,
    n_sample: u32,
    n_fmt: u8,
    id: &[u8],
    alleles: &[&[u8]],
    filters: &[i8],
    info: &[Vec<u8>],
) -> Vec<u8> {
    let mut out = Vec::new();
    out.extend_from_slice(&chrom.to_le_bytes());
    out.extend_from_slice(&pos.to_le_bytes());
    out.extend_from_slice(&rlen.to_le_bytes());
    out.extend_from_slice(&qual_bits.to_le_bytes());
    out.extend_from_slice(&(info.len() as i16).to_le_bytes());
    out.extend_from_slice(&(alleles.len() as i16).to_le_bytes());
    out.extend_from_slice(&n_sample.to_le_bytes()[0..3]);
    out.push(n_fmt);
    out.extend_from_slice(&typed_string(id));
    for a in alleles {
        out.extend_from_slice(&typed_string(a));
    }
    out.extend_from_slice(&typed_int8_vec(filters));
    for i in info {
        out.extend_from_slice(i);
    }
    out
}

/// One FORMAT field of the per-sample region: key, one descriptor, then
/// the raw payloads of every sample back to back.
fn format_field(idx: i8, descriptor_and_payloads: &[u8]) -> Vec<u8> {
    let mut out = vec![0x11, idx as u8];
    out.extend_from_slice(descriptor_and_payloads);
    out
}

fn frame(shared: &[u8], indiv: &[u8]) -> Vec<u8> {
    let mut out = Vec::new();
    out.extend_from_slice(&(shared.len() as u32).to_le_bytes());
    out.extend_from_slice(&(indiv.len() as u32).to_le_bytes());
    out.extend_from_slice(shared);
    out.extend_from_slice(indiv);
    out
}

fn bcf_file(header_text: &[u8], frames: &[Vec<u8>]) -> Vec<u8> {
    let mut htext = header_text.to_vec();
    htext.push(0);
    let mut out = Vec::new();
    out.extend_from_slice(b"BCF");
    out.push(2);
    out.push(2);
    out.extend_from_slice(&(htext.len() as u32).to_le_bytes());
    out.extend_from_slice(&htext);
    for f in frames {
        out.extend_from_slice(f);
    }
    out
}

fn types_header_text() -> Vec<u8> {
    let mut t = Vec::new();
    t.extend_from_slice(b"##fileformat=VCFv4.2\n");
    t.extend_from_slice(b"##FILTER=<ID=PASS,Description=\"All filters passed\">\n");
    t.extend_from_slice(b"##contig=<ID=1,IDX=0>\n");
    t.extend_from_slice(b"##INFO=<ID=FLAG,Number=0,Type=Flag,Description=\"f\",IDX=1>\n");
    t.extend_from_slice(b"##INFO=<ID=INT,Number=1,Type=Integer,Description=\"i\",IDX=2>\n");
    t.extend_from_slice(b"##INFO=<ID=FLOAT,Number=1,Type=Float,Description=\"fl\",IDX=3>\n");
    t.extend_from_slice(b"##INFO=<ID=STRING,Number=1,Type=String,Description=\"s\",IDX=4>\n");
    t.extend_from_slice(b"##INFO=<ID=INT2,Number=2,Type=Integer,Description=\"i2\",IDX=5>\n");
    t.extend_from_slice(b"##INFO=<ID=FLOAT2,Number=2,Type=Float,Description=\"fl2\",IDX=6>\n");
    t.extend_from_slice(b"##INFO=<ID=STRING2,Number=2,Type=String,Description=\"s2\",IDX=7>\n");
    t.extend_from_slice(b"##INFO=<ID=INTA,Number=A,Type=Integer,Description=\"ia\",IDX=8>\n");
    t.extend_from_slice(b"##INFO=<ID=INTR,Number=R,Type=Integer,Description=\"ir\",IDX=9>\n");
    t.extend_from_slice(b"##INFO=<ID=INTX,Number=.,Type=Integer,Description=\"ix\",IDX=10>\n");
    t.extend_from_slice(b"##FORMAT=<ID=INT,Number=1,Type=Integer,Description=\"i\",IDX=1>\n");
    t.extend_from_slice(b"##FORMAT=<ID=INTG,Number=G,Type=Integer,Description=\"g\",IDX=2>\n");
    t.extend_from_slice(b"##FORMAT=<ID=GT,Number=1,Type=String,Description=\"gt\",IDX=3>\n");
    t.extend_from_slice(b"#CHROM\tPOS\tID\tREF\tALT\tQUAL\tFILTER\tINFO\tFORMAT\tS1\n");
    t
}

/// The types fixture: a first record carrying one INFO value of every
/// shape plus two FORMAT fields, and a second record without the flag.
fn types_fixture() -> Vec<u8> {
    let half = 0.5f32.to_bits();
    let one = 1.0f32.to_bits();
    let info1 = vec![
        info_pair(1, &typed_missing()),
        info_pair(2, &typed_int8_vec(&[1])),
        info_pair(3, &typed_float_vec(&[half])),
        info_pair(4, &typed_string(b"String")),
        info_pair(5, &typed_int8_vec(&[1, 2])),
        info_pair(6, &typed_float_vec(&[half, one])),
        info_pair(7, &typed_string(b"String1,String2")),
        info_pair(8, &typed_int8_vec(&[1])),
        info_pair(9, &typed_int8_vec(&[1, 2])),
        info_pair(10, &typed_int8_vec(&[1, 2, 3, 4])),
    ];
    let shared1 = shared_region(0, 100, 1, QUAL_MISSING, 1, 2, b"", &[b"G", b"A"], &[0], &info1);
    let mut indiv1 = Vec::new();
    indiv1.extend_from_slice(&format_field(1, &typed_int8_vec(&[1])));
    indiv1.extend_from_slice(&format_field(2, &typed_int8_vec(&[1])));
    let r1 = frame(&shared1, &indiv1);

    let info2 = vec![info_pair(2, &typed_int8_vec(&[1]))];
    let shared2 = shared_region(0, 101, 1, QUAL_MISSING, 0, 0, b"", &[b"G", b"T"], &[0], &info2);
    let r2 = frame(&shared2, &[]);

    bcf_file(&types_header_text(), &[r1, r2])
}

fn id_header_text() -> Vec<u8> {
    let mut t = Vec::new();
    t.extend_from_slice(b"##fileformat=VCFv4.2\n");
    t.extend_from_slice(b"##FILTER=<ID=PASS,Description=\"All filters passed\">\n");
    t.extend_from_slice(b"##contig=<ID=chr1,IDX=0>\n");
    t.extend_from_slice(b"#CHROM\tPOS\tID\tREF\tALT\tQUAL\tFILTER\tINFO\n");
    t
}

/// The single-record fixture with a VCF ID column.
fn id_fixture() -> Vec<u8> {
    let shared = shared_region(
        0,
        817185,
        1,
        50.0f32.to_bits(),
        0,
        0,
        b"TestId123",
        &[b"G", b"A"],
        &[0],
        &[],
    );
    let r = frame(&shared, &[]);
    bcf_file(&id_header_text(), &[r])
}

fn samples_header_text() -> Vec<u8> {
    let mut t = Vec::new();
    t.extend_from_slice(b"##fileformat=VCFv4.2\n");
    t.extend_from_slice(b"##FILTER=<ID=PASS,Description=\"All filters passed\">\n");
    t.extend_from_slice(b"##contig=<ID=chr1,IDX=0>\n");
    t.extend_from_slice(b"##INFO=<ID=platforms,Number=1,Type=Integer,Description=\"p\",IDX=1>\n");
    t.extend_from_slice(
        b"#CHROM\tPOS\tID\tREF\tALT\tQUAL\tFILTER\tINFO\tFORMAT\tHG001\tINTEGRATION\tHG003\n",
    );
    t
}

/// The reference fixture: three samples and a `platforms` INFO value on
/// each record, summing to 3028 across the file.
fn samples_fixture() -> Vec<u8> {
    let shared1 = shared_region(
        0,
        10,
        1,
        QUAL_MISSING,
        0,
        0,
        b"",
        &[b"A", b"C"],
        &[0],
        &[info_pair(1, &typed_int16_vec(&[1514]))],
    );
    let shared2 = shared_region(
        0,
        20,
        1,
        QUAL_MISSING,
        0,
        0,
        b"",
        &[b"T", b"G"],
        &[0],
        &[info_pair(1, &typed_int16_vec(&[1514]))],
    );
    bcf_file(
        &samples_header_text(),
        &[frame(&shared1, &[]), frame(&shared2, &[])],
    )
}

// ---- ported end-to-end tests ----

#[test]
fn test_samples() {
    let records = BcfRecords::new(samples_fixture()).unwrap();
    assert_eq!(
        records.header().samples,
        vec![b"HG001".to_vec(), b"INTEGRATION".to_vec(), b"HG003".to_vec()]
    );
}

#[test]
fn test_id() {
    let mut records = BcfRecords::new(id_fixture()).unwrap();
    records
        .next()
        .map(|record| assert_eq!(record.unwrap().id(), b"TestId123"));
}

#[test]
fn test_ref_allele() {
    let mut records = BcfRecords::new(id_fixture()).unwrap();
    records
        .next()
        .map(|record| assert_eq!(record.unwrap().ref_allele(), b"G"));
}

#[test]
fn test_alt_alleles() {
    let mut records = BcfRecords::new(id_fixture()).unwrap();
    records
        .next()
        .map(|record| assert_eq!(record.unwrap().alt_alleles(), vec![b"A"]));
}

#[test]
fn test_info_platforms() {
    let mut records = BcfRecords::new(samples_fixture()).unwrap();
    let mut platforms_sum = 0usize;
    while let Some(record) = records.next() {
        if let Some(values) = record.unwrap().info(b"platforms") {
            platforms_sum += values.integer()[0] as usize;
        }
    }
    assert_eq!(platforms_sum, 3028);
}

#[test]
fn test_info_flag() {
    let mut records = BcfRecords::new(types_fixture()).unwrap();
    records
        .next()
        .map(|record| assert_eq!(record.unwrap().has_flag(b"FLAG"), true));
    records
        .next()
        .map(|record| assert_eq!(record.unwrap().has_flag(b"FLAG"), false));
}

#[test]
fn test_info_single_integer() {
    let mut records = BcfRecords::new(types_fixture()).unwrap();
    records.next().map(|record| {
        let field = record.unwrap().info(b"INT").unwrap();
        let values = field.integer();
        assert_eq!(values.len(), 1);
        assert_eq!(values[0], 1)
    });
}

#[test]
fn test_info_single_float() {
    let mut records = BcfRecords::new(types_fixture()).unwrap();
    records.next().map(|record| {
        let field = record.unwrap().info(b"FLOAT").unwrap();
        let values = field.float();
        assert_eq!(values.len(), 1);
        assert_eq!(f32::from_bits(values[0]), 0.5)
    });
}

#[test]
fn test_info_single_string() {
    let mut records = BcfRecords::new(types_fixture()).unwrap();
    records.next().map(|record| {
        let field = record.unwrap().info(b"STRING").unwrap();
        let values = field.string();
        assert_eq!(values.len(), 1);
        assert_eq!(values[0], b"String")
    });
}

#[test]
fn test_info_two_integers() {
    let mut records = BcfRecords::new(types_fixture()).unwrap();
    records.next().map(|record| {
        let field = record.unwrap().info(b"INT2").unwrap();
        let values = field.integer();
        assert_eq!(values.len(), 2);
        assert_eq!(*values, [1, 2]);
    });
}

#[test]
fn test_info_two_floats() {
    let mut records = BcfRecords::new(types_fixture()).unwrap();
    records.next().map(|record| {
        let field = record.unwrap().info(b"FLOAT2").unwrap();
        let values = field.float();
        assert_eq!(values.len(), 2);
        assert_eq!(f32::from_bits(values[0]), 0.5);
        assert_eq!(f32::from_bits(values[1]), 1.0);
    });
}

#[test]
fn test_info_two_strings() {
    let mut records = BcfRecords::new(types_fixture()).unwrap();
    records.next().map(|record| {
        let field = record.unwrap().info(b"STRING2").unwrap();
        let values = field.string();
        assert_eq!(values.len(), 2);
        assert_eq!(values, vec![b"String1", b"String2"])
    });
}

#[test]
fn test_info_n_alt_alleles_integers() {
    let mut records = BcfRecords::new(types_fixture()).unwrap();
    records.next().map(|record| {
        let record = record.unwrap();
        let field = record.info(b"INTA").unwrap();
        let values = field.integer();
        assert_eq!(values.len(), record.alt_alleles().len());
        assert_eq!(*values, [1]);
    });
}

#[test]
fn test_info_n_alleles_integers() {
    let mut records = BcfRecords::new(types_fixture()).unwrap();
    records.next().map(|record| {
        let record = record.unwrap();
        let field = record.info(b"INTR").unwrap();
        let values = field.integer();
        assert_eq!(values.len(), record.alt_alleles().len() + 1);
        assert_eq!(*values, [1, 2]);
    });
}

#[test]
fn test_info_variable_number_integers() {
    let mut records = BcfRecords::new(types_fixture()).unwrap();
    records.next().map(|record| {
        let field = record.unwrap().info(b"INTX").unwrap();
        let values = field.integer();
        assert_eq!(values.len(), 4);
        assert_eq!(*values, [1, 2, 3, 4]);
    });
}

#[test]
fn test_format_single_integer() {
    let mut records = BcfRecords::new(types_fixture()).unwrap();
    records.next().map(|record| {
        let samples = record.unwrap().format(b"INT").unwrap();
        let field = &samples[0];
        let values = field.integer();
        assert_eq!(values.len(), 1);
        assert_eq!(values[0], 1);
    });
}

#[test]
fn test_format_n_genotypes_integer() {
    let mut records = BcfRecords::new(types_fixture()).unwrap();
    records.next().map(|record| {
        let samples = record.unwrap().format(b"INTG").unwrap();
        let field = &samples[0];
        let values = field.integer();
        assert_eq!(values.len(), 1);
        assert_eq!(values[0], 1);
    });
}

// ---- further behaviour ----

#[test]
fn eager_and_lazy_agree_on_every_field() {
    let half = 0.5f32.to_bits();
    let info = vec![
        info_pair(1, &typed_missing()),
        info_pair(2, &typed_int8_vec(&[1])),
        info_pair(3, &typed_float_vec(&[half])),
    ];
    let shared = shared_region(0, 42, 1, 50.0f32.to_bits(), 1, 1, b"x", &[b"G", b"A"], &[0], &info);
    let mut indiv = Vec::new();
    indiv.extend_from_slice(&format_field(1, &typed_int8_vec(&[7])));
    let header = Rc::new(Header::parse(&{
        let mut t = types_header_text();
        t.push(0);
        t
    })
    .unwrap());
    let lazy = rust_bcf::RawBcfRecord::new(shared.clone(), indiv.clone(), Rc::clone(&header)).unwrap();
    let eager = BcfRecord::new(&shared, &indiv, header).unwrap();
    assert_eq!(lazy.id(), eager.id());
    assert_eq!(lazy.chrom(), eager.chrom());
    assert_eq!(lazy.pos(), eager.pos());
    assert_eq!(lazy.ref_allele(), eager.ref_allele());
    assert_eq!(lazy.alt_alleles(), eager.alt_alleles());
    assert_eq!(lazy.qual(), eager.qual());
    assert_eq!(lazy.filters(), eager.filters());
    for tag in [&b"FLAG"[..], &b"INT"[..], &b"FLOAT"[..], &b"STRING"[..], &b"INTX"[..]] {
        assert_eq!(lazy.info(tag), eager.info(tag), "info {:?}", tag);
        assert_eq!(lazy.has_flag(tag), eager.has_flag(tag));
    }
    for tag in [&b"INT"[..], &b"INTG"[..], &b"GT"[..]] {
        assert_eq!(lazy.format(tag), eager.format(tag), "format {:?}", tag);
    }
    assert_eq!(lazy.genotypes(), eager.genotypes());
}

#[test]
fn qual_sentinels() {
    // The missing sentinel decodes to absent; the NaN sentinel and
    // ordinary values stay present with their exact bits.
    for (bits, expect) in [
        (rust_bcf::types::MISSING_QUAL, None),
        (rust_bcf::types::NAN_QUAL, Some(rust_bcf::types::NAN_QUAL)),
        (50.0f32.to_bits(), Some(50.0f32.to_bits())),
    ] {
        let shared = shared_region(0, 1, 1, bits, 0, 0, b"", &[b"G"], &[0], &[]);
        let file = bcf_file(&id_header_text(), &[frame(&shared, &[])]);
        let mut records = BcfRecords::new(file).unwrap();
        let record = records.next().unwrap().unwrap();
        assert_eq!(record.qual(), expect);
    }
}

#[test]
fn widening_preserves_narrow_values() {
    let info = vec![
        info_pair(1, &typed_int8_vec(&[-2])),
        info_pair(2, &typed_int16_vec(&[-300, 300])),
        info_pair(3, &typed_int32_vec(&[-70000, 70000])),
    ];
    let mut t = Vec::new();
    t.extend_from_slice(b"##fileformat=VCFv4.2\n");
    t.extend_from_slice(b"##FILTER=<ID=PASS,Description=\"p\">\n");
    t.extend_from_slice(b"##contig=<ID=c,IDX=0>\n");
    t.extend_from_slice(b"##INFO=<ID=W8,Number=1,Type=Integer,Description=\"w\",IDX=1>\n");
    t.extend_from_slice(b"##INFO=<ID=W16,Number=2,Type=Integer,Description=\"w\",IDX=2>\n");
    t.extend_from_slice(b"##INFO=<ID=W32,Number=2,Type=Integer,Description=\"w\",IDX=3>\n");
    t.extend_from_slice(b"#CHROM\tPOS\tID\tREF\tALT\tQUAL\tFILTER\tINFO\n");
    let shared = shared_region(0, 1, 1, QUAL_MISSING, 0, 0, b"", &[b"G"], &[0], &info);
    let mut records = BcfRecords::new(bcf_file(&t, &[frame(&shared, &[])])).unwrap();
    let record = records.next().unwrap().unwrap();
    assert_eq!(*record.info(b"W8").unwrap().integer(), [-2]);
    assert_eq!(*record.info(b"W16").unwrap().integer(), [-300, 300]);
    assert_eq!(*record.info(b"W32").unwrap().integer(), [-70000, 70000]);
}

#[test]
fn iterator_exhaustion_keeps_yielding_nothing() {
    let mut records = BcfRecords::new(id_fixture()).unwrap();
    assert!(records.next().unwrap().is_ok());
    assert!(records.next().is_none());
    assert!(records.next().is_none());
    assert!(records.next().is_none());
}

#[test]
fn end_of_vector_padding_is_stripped() {
    // One FORMAT field with two samples of unequal ploidy: the shorter
    // sample pads with the end-of-vector sentinel, which decoding strips.
    let shared = shared_region(0, 1, 1, QUAL_MISSING, 2, 1, b"", &[b"G"], &[0], &[]);
    let mut payload = Vec::new();
    payload.push(0x21); // two int8 elements per sample
    payload.extend_from_slice(&[3, 5]); // first sample
    payload.extend_from_slice(&[2, 0x81]); // second sample, padded
    let indiv = format_field(1, &payload);
    let mut t = Vec::new();
    t.extend_from_slice(b"##fileformat=VCFv4.2\n");
    t.extend_from_slice(b"##FILTER=<ID=PASS,Description=\"p\">\n");
    t.extend_from_slice(b"##contig=<ID=c,IDX=0>\n");
    t.extend_from_slice(b"##FORMAT=<ID=AD,Number=.,Type=Integer,Description=\"d\",IDX=1>\n");
    t.extend_from_slice(b"#CHROM\tPOS\tID\tREF\tALT\tQUAL\tFILTER\tINFO\tFORMAT\tS1\tS2\n");
    let mut records = BcfRecords::new(bcf_file(&t, &[frame(&shared, &indiv)])).unwrap();
    let record = records.next().unwrap().unwrap();
    let samples = record.format(b"AD").unwrap();
    assert_eq!(*samples[0].integer(), [3, 5]);
    assert_eq!(*samples[1].integer(), [2]);
}

#[test]
fn genotypes_decode() {
    let shared = shared_region(0, 1, 1, QUAL_MISSING, 1, 1, b"", &[b"G", b"A"], &[0], &[]);
    // GT for one sample: 0/1 encoded as [2, 5]: unphased allele 0, then
    // phased allele 1.
    let indiv = format_field(3, &typed_int8_vec(&[2, 5]));
    let mut records =
        BcfRecords::new(bcf_file(&types_header_text(), &[frame(&shared, &indiv)])).unwrap();
    let record = records.next().unwrap().unwrap();
    let gts = record.genotypes();
    assert_eq!(gts.len(), 1);
    assert_eq!(gts[0], vec![GenotypeAllele::Unphased(0), GenotypeAllele::Phased(1)]);
    assert_eq!(GenotypeAllele::Unphased(0).index(), Some(0));
    assert_eq!(GenotypeAllele::Phased(1).index(), Some(1));
    assert_eq!(GenotypeAllele::UnphasedMissing.index(), None);
}

#[test]
fn filters_and_chrom_resolve() {
    let mut records = BcfRecords::new(id_fixture()).unwrap();
    let record = records.next().unwrap().unwrap();
    assert_eq!(record.chrom(), b"chr1");
    assert_eq!(record.filters(), vec![b"PASS"]);
    assert_eq!(record.pos(), 817185);
}

#[test]
fn header_tables() {
    let records = BcfRecords::new(types_fixture()).unwrap();
    let header = records.header();
    assert_eq!(header.info.len(), 10);
    assert_eq!(header.info[0].id, b"FLAG");
    assert_eq!(header.info[9].idx, 10);
    assert_eq!(header.format.len(), 3);
    assert_eq!(header.contigs.len(), 1);
    assert_eq!(header.filters.len(), 1);
    assert_eq!(header.filters[0].id, b"PASS");
    assert_eq!(header.meta.len(), 1);
    assert_eq!(header.meta[0].0, b"fileformat");
    assert_eq!(header.meta[0].1, b"VCFv4.2");
}

#[test]
fn dictionary_lookup_by_handle() {
    let records = BcfRecords::new(types_fixture()).unwrap();
    let header = records.header();
    assert_eq!(header.info_by_idx(2).unwrap().id, b"INT");
    assert_eq!(header.info_by_idx(99).map(|e| e.id.clone()), None);
    assert_eq!(header.format_by_idx(2).unwrap().id, b"INTG");
    assert_eq!(header.info_tag_to_offset(b"INTX"), Some(10));
    assert_eq!(header.info_tag_to_offset(b"NOPE"), None);
    assert_eq!(header.format_tag_to_offset(b"GT"), Some(3));
}

#[test]
fn error_invalid_magic() {
    let mut data = id_fixture();
    data[0] = b'X';
    assert_eq!(BcfRecords::new(data).err(), Some(BcfError::InvalidMagic));
}

#[test]
fn error_version_mismatch() {
    let mut data = id_fixture();
    data[4] = 3;
    assert_eq!(BcfRecords::new(data).err(), Some(BcfError::VersionMismatch));
}

#[test]
fn error_truncated_input() {
    let mut data = id_fixture();
    data.truncate(data.len() - 3);
    let mut records = BcfRecords::new(data).unwrap();
    assert_eq!(records.next().unwrap().err(), Some(BcfError::TruncatedInput));
    assert!(records.next().is_none());
}

#[test]
fn error_malformed_type_descriptor() {
    // Kind nibble 4 is reserved: decoding the ID descriptor fails.
    let mut shared = shared_region(0, 1, 1, QUAL_MISSING, 0, 0, b"", &[b"G"], &[0], &[]);
    shared[24] = 0x04;
    let file = bcf_file(&id_header_text(), &[frame(&shared, &[])]);
    let mut records = BcfRecords::new(file).unwrap();
    assert_eq!(
        records.next().unwrap().err(),
        Some(BcfError::MalformedTypeDescriptor)
    );
}

#[test]
fn error_malformed_header() {
    let mut t = Vec::new();
    t.extend_from_slice(b"##fileformat=VCFv4.2\n");
    t.extend_from_slice(b"##INFO=<Number=1,Type=Integer,Description=\"no id\">\n");
    let file = bcf_file(&t, &[]);
    assert_eq!(BcfRecords::new(file).err(), Some(BcfError::MalformedHeader));
}

#[test]
fn error_index_out_of_bounds() {
    // The record names contig 7; the header declares one contig.
    let shared = shared_region(7, 1, 1, QUAL_MISSING, 0, 0, b"", &[b"G"], &[0], &[]);
    let file = bcf_file(&id_header_text(), &[frame(&shared, &[])]);
    let mut records = BcfRecords::new(file).unwrap();
    assert_eq!(records.next().unwrap().err(), Some(BcfError::IndexOutOfBounds));
}

#[test]
fn quoted_description_with_escapes() {
    let mut t = Vec::new();
    t.extend_from_slice(b"##fileformat=VCFv4.2\n");
    t.extend_from_slice(b"##FILTER=<ID=PASS,Description=\"a \\\"quoted\\\" word\">\n");
    t.extend_from_slice(b"##contig=<ID=c,IDX=0>\n");
    t.extend_from_slice(b"#CHROM\tPOS\tID\tREF\tALT\tQUAL\tFILTER\tINFO\n");
    let records = BcfRecords::new(bcf_file(&t, &[])).unwrap();
    assert_eq!(records.header().filters[0].description, b"a \\\"quoted\\\" word");
}

#[test]
fn parse_usize_reads_decimal_runs() {
    assert_eq!(rust_bcf::header::parse_usize("0"), 0);
    assert_eq!(rust_bcf::header::parse_usize("817185"), 817185);
}
