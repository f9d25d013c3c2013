use tm25ray::bits::{ge_exec, neg_exec, SWAPPED_UNKNOWN_BITS};
use tm25ray::ray::{bits_from_index, index_from_bits};
use tm25ray::sample::subsample_indices;
use tm25ray::text::decode_date;
use tm25ray::{
    columns_from_flags, encode_header, header_step, to_bytes, Column, FluxKind, Header,
    HeaderStep, IntensityUnit, KnownDataFlags, ParseOptions, Ray, RayLayout, RayView, Rng64,
    SpectralId, SpectralTable, StreamDecoder, Tm25Error, Tm25File,
};

fn bits(v: f32) -> u32 {
    v.to_bits()
}

fn sample_ray(i: u32) -> Ray {
    Ray::new(
        [bits(i as f32), bits(-(i as f32)), bits(0.25)],
        [bits(0.0), bits(0.6), bits(0.8)],
    )
}

fn small_header() -> Header {
    let mut h = Header::new(KnownDataFlags::radiometric());
    h.radiant_flux_bits = bits(2.0);
    h.date_time = "2026-01-02 03:04:05".into();
    h
}

fn radiant_rays(n: u32) -> Vec<Ray> {
    (0..n).map(|i| sample_ray(i).with_radiant_flux(bits(0.5))).collect()
}

#[test]
fn spectrum_index_encoding_is_f32_conversion() {
    let values: [u32; 16] = [
        0,
        1,
        2,
        3,
        255,
        256,
        1 << 23,
        (1 << 24) - 1,
        1 << 24,
        (1 << 24) + 1,
        (1 << 24) + 3,
        (1 << 25) + 1,
        123_456_789,
        0x7FFF_FFFF,
        u32::MAX - 1,
        u32::MAX,
    ];
    for v in values {
        assert_eq!(bits_from_index(v), (v as f32).to_bits(), "value {v}");
    }
    let mut rng = Rng64::new(11);
    for _ in 0..10_000 {
        let v = rng.next_u64() as u32;
        assert_eq!(bits_from_index(v), (v as f32).to_bits(), "value {v}");
    }
}

#[test]
fn spectrum_index_decoding_rounds_half_away_and_clamps() {
    let samples: [f32; 18] = [
        0.0,
        -0.0,
        0.4,
        0.5,
        1.5,
        2.5,
        123.49,
        -3.7,
        1e-40,
        16_777_216.0,
        1e10,
        4_294_967_296.0,
        4_294_967_040.0,
        f32::INFINITY,
        f32::NEG_INFINITY,
        f32::NAN,
        -f32::NAN,
        f32::MAX,
    ];
    for f in samples {
        assert_eq!(index_from_bits(f.to_bits()), f.round().max(0.0) as u32, "value {f}");
    }
    let mut rng = Rng64::new(12);
    for _ in 0..10_000 {
        let b = rng.next_u64() as u32;
        let f = f32::from_bits(b);
        assert_eq!(index_from_bits(b), f.round().max(0.0) as u32, "pattern {b:#x}");
    }
    // Whole numbers up to 2^24 survive the round trip exactly.
    for v in [0u32, 1, 7, 65_535, 1 << 24] {
        assert_eq!(index_from_bits(bits_from_index(v)), v);
    }
}

#[test]
fn spectrum_index_column_round_trips() {
    let flags = KnownDataFlags { spectrum_index: true, ..KnownDataFlags::radiometric() };
    let layout = RayLayout::from_columns(columns_from_flags(&flags, 2));
    assert_eq!(layout.record_size(), 4 * (6 + 1 + 1 + 2));
    let mut ray = sample_ray(3).with_radiant_flux(bits(0.125));
    ray.spectrum_index = Some(5);
    let mut out = Vec::new();
    layout.encode(&ray, &mut out);
    assert_eq!(out.len(), layout.record_size());
    assert_eq!(layout.decode(&out), ray);
    assert_eq!(layout.field(&out, Column::SpectrumIndex), Some(bits(5.0)));
    assert_eq!(layout.field(&out, Column::Additional(1)), Some(0));
    assert_eq!(layout.field(&out, Column::Wavelength), None);
}

#[test]
fn known_data_flags_round_trip() {
    let f = KnownDataFlags { stokes: true, tristimulus: true, ..KnownDataFlags::photometric() };
    assert_eq!(KnownDataFlags::from_words(&f.to_words()), f);
    let w = [1, 1, 0, 1, 0, 0, 1, 0];
    assert_eq!(KnownDataFlags::from_words(&w).to_words(), w);
    // Any non-zero word sets its flag.
    let f = KnownDataFlags::from_words(&[7, -1, 0, 0, 0, 0, 0, 2]);
    assert!(f.position && f.direction && f.spectrum_index && !f.radiant_flux);
}

#[test]
fn spectral_id_round_trip() {
    for v in -3..10 {
        assert_eq!(SpectralId::from_i32(v).to_i32(), v);
    }
    assert_eq!(SpectralId::from_i32(4), SpectralId::PerRayTableIndex);
    assert_eq!(SpectralId::from_i32(9), SpectralId::Unknown(9));
    // An "unknown" value that is a known code reads back as that code.
    assert_eq!(SpectralId::from_i32(SpectralId::Unknown(1).to_i32()), SpectralId::SingleWavelength);
}

#[test]
fn columns_follow_flag_order() {
    let all = KnownDataFlags {
        position: true,
        direction: true,
        radiant_flux: true,
        wavelength: true,
        luminous_flux: true,
        stokes: true,
        tristimulus: true,
        spectrum_index: true,
    };
    let c = columns_from_flags(&all, 1);
    assert_eq!(c.len(), 19);
    assert_eq!(c[6], Column::RadiantFlux);
    assert_eq!(c[7], Column::Wavelength);
    assert_eq!(c[8], Column::LuminousFlux);
    assert_eq!(c[9], Column::S1);
    assert_eq!(c[15], Column::TriX);
    assert_eq!(c[17], Column::SpectrumIndex);
    assert_eq!(c[18], Column::Additional(0));
    assert_eq!(columns_from_flags(&KnownDataFlags::default(), 0).len(), 6);
}

#[test]
fn swapped_unknown_sentinel_reads_as_unknown() {
    let mut h = small_header();
    h.radiant_flux_bits = SWAPPED_UNKNOWN_BITS;
    h.luminous_flux_bits = SWAPPED_UNKNOWN_BITS;
    h.min_wavelength_bits = SWAPPED_UNKNOWN_BITS;
    h.max_wavelength_bits = bits(780.0);
    assert_eq!(h.radiant_flux_w(), 0);
    assert_eq!(h.luminous_flux_lm(), 0);
    assert_eq!(h.total_flux(FluxKind::Radiometric), 0);
    assert_eq!(h.min_wavelength_nm(), None);
    assert_eq!(h.max_wavelength_nm(), Some(bits(780.0)));
    // The stored bits are written back unchanged.
    let bytes = encode_header(&h, 0).unwrap();
    assert_eq!(&bytes[16..20], &[0x7F, 0x80, 0x00, 0x01]);
    assert_eq!(&bytes[68..72], &[0x7F, 0x80, 0x00, 0x01]);
}

#[test]
fn trailer_absent_round_trip() {
    let mut h = small_header();
    h.has_name_block = false;
    let rays = radiant_rays(4);
    let bytes = to_bytes(&h, &rays).unwrap();
    assert_eq!(bytes.len(), 36_288 + 4 * 28);
    let f = Tm25File::parse(&bytes).unwrap();
    assert!(!f.header.has_name_block);
    assert_eq!(f.header.ray_start, 36_288);
    assert_eq!(f.rays.get(3), Some(rays[3]));
    assert_eq!(encode_header(&f.header, 4).unwrap(), &bytes[..36_288]);
    // With the trailer, four more bytes for the (empty) name count.
    h.has_name_block = true;
    let with = to_bytes(&h, &rays).unwrap();
    assert_eq!(with.len(), bytes.len() + 4);
    assert!(Tm25File::parse(&with).unwrap().header.has_name_block);
}

#[test]
fn header_round_trips_through_parse() {
    let mut h = small_header();
    h.creation_method = -1;
    h.start_position = 1;
    h.text.raw[2] = "Model Ω".into();
    h.spectral_id = SpectralId::SingleWavelength;
    h.single_wavelength_bits = bits(555.0);
    let rays = radiant_rays(2);
    let bytes = to_bytes(&h, &rays).unwrap();
    let f = Tm25File::parse(&bytes).unwrap();
    assert_eq!(f.header.text.model(), "Model Ω");
    assert_eq!(f.header.single_wavelength_nm(), Some(bits(555.0)));
    assert_eq!(f.header.start_position, 1);
    assert_eq!(f.header.creation_method, -1);
    let again = to_bytes(&f.header, &[f.rays.get(0).unwrap(), f.rays.get(1).unwrap()]).unwrap();
    assert_eq!(again, bytes);
}

#[test]
fn truncation_reports_the_bytes_needed() {
    let bytes = to_bytes(&small_header(), &radiant_rays(1)).unwrap();
    match Header::parse(&bytes[..100], &ParseOptions::default()) {
        Err(Tm25Error::Truncated { needed, have }) => {
            assert_eq!(needed, 256);
            assert_eq!(have, 100);
        }
        other => panic!("unexpected {other:?}"),
    }
    match Header::parse(&bytes[..2], &ParseOptions::default()) {
        Err(Tm25Error::Truncated { needed, have }) => {
            assert_eq!(needed, 4);
            assert_eq!(have, 2);
        }
        other => panic!("unexpected {other:?}"),
    }
    assert!(matches!(header_step(&bytes[..100], 100, false, &ParseOptions::default()), HeaderStep::NeedMore(256)));
    assert!(matches!(header_step(&bytes[..36_292], 36_292, false, &ParseOptions::default()), HeaderStep::Parsed(_)));
    assert!(matches!(header_step(&bytes[..10], 36_292, false, &ParseOptions::default()), HeaderStep::NeedMore(36_292)));
    assert!(matches!(
        header_step(&bytes[..10], 36_292, true, &ParseOptions::default()),
        HeaderStep::Failed(Tm25Error::Truncated { needed: 36_292, have: 10 })
    ));
    let mut bad = bytes.clone();
    bad[0] = b'Q';
    assert!(matches!(header_step(&bad, 4, false, &ParseOptions::default()), HeaderStep::Failed(Tm25Error::BadMagic(_))));
}

#[test]
fn validate_rejects_inconsistent_headers() {
    let mut h = Header::new(KnownDataFlags::default());
    assert!(matches!(h.validate(), Err(Tm25Error::InvalidHeader(_))));
    h = small_header();
    assert!(h.validate().is_ok());
    // Flux totals must be zero, positive or NaN.
    h.radiant_flux_bits = bits(-1.0);
    match h.validate() {
        Err(Tm25Error::InvalidHeader(m)) => assert_eq!(m, "radiant flux total is negative"),
        other => panic!("unexpected {other:?}"),
    }
    for ok in [bits(0.0), bits(-0.0), bits(f32::NAN), SWAPPED_UNKNOWN_BITS, bits(3.5)] {
        h.radiant_flux_bits = ok;
        assert!(h.validate().is_ok(), "pattern {ok:#x}");
    }
    h.luminous_flux_bits = bits(-2.0);
    assert!(matches!(h.validate(), Err(Tm25Error::InvalidHeader(_))));
    // A strict parse applies the rule too; a lenient one does not.
    let mut neg = small_header();
    neg.radiant_flux_bits = bits(-0.5);
    let bytes = to_bytes(&neg, &radiant_rays(2)).unwrap();
    assert!(matches!(Tm25File::parse(&bytes), Err(Tm25Error::InvalidHeader(_))));
    let lenient =
        Tm25File::parse_with(&bytes, &ParseOptions { strict_flags: false, ..Default::default() })
            .unwrap();
    assert_eq!(lenient.header.radiant_flux_bits, bits(-0.5));
}

#[test]
fn date_field_is_trimmed() {
    let mut raw = [0u8; 28];
    raw[..7].copy_from_slice(b"  2026 ");
    assert_eq!(decode_date(&raw), "2026");
    let raw = *b"2026-05-12 13:57:44\0garbage!";
    assert_eq!(decode_date(&raw), "2026-05-12 13:57:44");
    assert_eq!(decode_date(&[b' '; 28]), "");
}

#[test]
fn stream_decoder_delivers_records_in_order() {
    let rays = radiant_rays(10);
    let bytes = to_bytes(&small_header(), &rays).unwrap();
    let h = match header_step(&bytes[..36_300], 36_292, false, &ParseOptions::default()) {
        HeaderStep::Parsed(h) => h,
        other => panic!("unexpected {other:?}"),
    };
    let mut dec = StreamDecoder::new(h, bytes[..36_300].to_vec());
    assert_eq!(dec.buffered(), 36_300 - 36_292);
    assert_eq!(dec.remaining(), 10);
    assert_eq!(dec.want_bytes(3), 3 * 28);
    dec.feed(&bytes[36_300..36_292 + 3 * 28]);
    let first = dec.take_chunk(3);
    assert_eq!(first, rays[..3].to_vec());
    assert_eq!(dec.remaining(), 7);
    dec.feed(&bytes[36_292 + 3 * 28..36_292 + 5 * 28 + 10]);
    let err = dec.eof_error();
    assert!(matches!(err, Tm25Error::RayCountMismatch { expected: 10, actual: 5 }));
    assert_eq!(dec.take_chunk(2), rays[3..5].to_vec());
    assert_eq!(dec.want_bytes(100), 5 * 28);
}

#[test]
fn rng_matches_splitmix_and_xorshift() {
    let seed = 42u64;
    let mut z = seed.wrapping_add(0x9E37_79B9_7F4A_7C15);
    z = (z ^ (z >> 30)).wrapping_mul(0xBF58_476D_1CE4_E5B9);
    z = (z ^ (z >> 27)).wrapping_mul(0x94D0_49BB_1331_11EB);
    z ^= z >> 31;
    let mut x = z;
    x ^= x >> 12;
    x ^= x << 25;
    x ^= x >> 27;
    let mut rng = Rng64::new(seed);
    assert_eq!(rng.next_u64(), x.wrapping_mul(0x2545_F491_4F6C_DD1D));
    let mut a = Rng64::new(1);
    let mut b = Rng64::new(1);
    for n in 1..200u64 {
        let v = a.below(n);
        assert!(v < n);
        assert_eq!(v, b.below(n));
    }
}

#[test]
fn floyd_picks_distinct_sorted_indices() {
    let idx = subsample_indices(100, 10, 9);
    assert_eq!(idx.len(), 10);
    assert!(idx.windows(2).all(|w| w[0] < w[1]));
    assert!(idx.iter().all(|&i| i < 100));
    assert_eq!(subsample_indices(100, 10, 9), idx);
    assert_eq!(subsample_indices(5, 7, 1), vec![0, 1, 2, 3, 4]);
    assert_eq!(subsample_indices(5, 0, 1), Vec::<usize>::new());
    assert_eq!(subsample_indices(5, 4, 3).len(), 4);
}

#[test]
fn ray_view_basics() {
    let rays = radiant_rays(3);
    let bytes = to_bytes(&small_header(), &rays).unwrap();
    let f = Tm25File::parse(&bytes).unwrap();
    let view: &RayView<'_> = &f.rays;
    assert!(!view.is_empty());
    assert_eq!(view.bytes().len(), 3 * 28);
    assert_eq!(view.raw(3), None);
    assert_eq!(view.to_vec(), rays);
    let mut it = view.iter();
    assert_eq!(it.size_hint(), (3, Some(3)));
    it.next();
    assert_eq!(it.size_hint(), (2, Some(2)));
    let empty = RayView::new(RayLayout::from_columns(columns_from_flags(&KnownDataFlags::radiometric(), 0)), &[], 0);
    assert!(empty.is_empty());
}

#[test]
fn ray_helpers() {
    let r = sample_ray(2).with_radiant_flux(bits(1.5)).with_luminous_flux(bits(3.0));
    assert_eq!(r.flux(FluxKind::Radiometric), bits(1.5));
    assert_eq!(r.flux(FluxKind::Photometric), bits(3.0));
    assert_eq!(r.flux(FluxKind::Both), bits(1.5));
    assert_eq!(sample_ray(2).flux(FluxKind::Radiometric), bits(0.0));
    let p = r.bevy_position();
    assert_eq!(f32::from_bits(p[1]), -0.25);
    assert_eq!(f32::from_bits(p[2]), -2.0);
    assert_eq!(neg_exec(bits(1.0)), bits(-1.0));
    assert!(ge_exec(bits(2.0), bits(-1.0)));
    assert!(!ge_exec(bits(f32::NAN), bits(0.0)));
    assert_eq!(IntensityUnit::for_flux(FluxKind::Photometric), IntensityUnit::Candela);
    assert_eq!(IntensityUnit::for_flux(FluxKind::Both), IntensityUnit::WattPerSteradian);
}

#[test]
fn every_short_prefix_is_truncated_and_longer_ones_agree() {
    let mut h = small_header();
    h.column_names = vec![];
    h.additional_text = "note".into();
    let bytes = to_bytes(&h, &radiant_rays(3)).unwrap();
    let opts = ParseOptions::default();
    let whole = Header::parse(&bytes, &opts).unwrap();
    assert_eq!(whole.ray_start, 36_288 + 4 + 16);
    for k in [0usize, 3, 4, 7, 50, 87, 88, 255, 287, 288, 4_287, 36_287, 36_288, 36_291, 36_300, 36_307] {
        match Header::parse(&bytes[..k], &opts) {
            Err(Tm25Error::Truncated { needed, have }) => {
                assert!(needed > k, "prefix {k} asks for {needed}");
                assert_eq!(have, k);
            }
            other => panic!("prefix {k}: unexpected {other:?}"),
        }
    }
    for k in [whole.ray_start, whole.ray_start + 5, bytes.len()] {
        assert_eq!(Header::parse(&bytes[..k], &opts).unwrap(), whole);
    }
}
