use tm25ray::{
    encode_header, from_bevy, header_step, to_bevy, to_bytes, Column, FluxKind, Header,
    HeaderStep, KnownDataFlags, ParseOptions, Ray, ReservoirSlots, Rng64, SpectralId,
    SpectralTable, StreamDecoder, Tm25Error, Tm25File, FIRST_HEADER_READ,
};
use tm25ray::sample::subsample_rays;

fn bits(v: f32) -> u32 {
    v.to_bits()
}

fn bits3(v: [f32; 3]) -> [u32; 3] {
    [v[0].to_bits(), v[1].to_bits(), v[2].to_bits()]
}

fn floats3(v: [u32; 3]) -> [f32; 3] {
    [f32::from_bits(v[0]), f32::from_bits(v[1]), f32::from_bits(v[2])]
}

/// Uniform in `[0, 1)` from the generator.
fn next_unit(rng: &mut Rng64) -> f64 {
    (rng.next_u64() >> 11) as f64 / (1u64 << 53) as f64
}

/// Synthetic Lambertian emitter on a 2 mm square, `n` rays of `flux_each`.
fn lambertian_rays(n: usize, flux_each: f32, seed: u64) -> Vec<Ray> {
    let mut rng = Rng64::new(seed);
    (0..n)
        .map(|_| {
            let u = next_unit(&mut rng);
            let v = next_unit(&mut rng);
            // Cosine-weighted hemisphere: γ = asin(√u), uniform azimuth.
            let sin_g = u.sqrt();
            let cos_g = (1.0 - u).sqrt();
            let phi = 2.0 * std::f64::consts::PI * v;
            let x = (next_unit(&mut rng) * 2.0 - 1.0) as f32;
            let y = (next_unit(&mut rng) * 2.0 - 1.0) as f32;
            Ray::new(
                bits3([x, y, -0.5]),
                bits3([
                    (sin_g * phi.cos()) as f32,
                    (sin_g * phi.sin()) as f32,
                    cos_g as f32,
                ]),
            )
            .with_radiant_flux(bits(flux_each))
        })
        .collect()
}

fn header_uv() -> Header {
    let mut h = Header::new(KnownDataFlags::radiometric());
    h.creation_method = -1;
    h.radiant_flux_bits = bits(0.051);
    h.date_time = "2026-05-12 13:57:44".into();
    h.spectral_id = SpectralId::SharedTable;
    h.min_wavelength_bits = bits(220.0);
    h.max_wavelength_bits = bits(320.0);
    h.spectra = vec![SpectralTable {
        wavelengths_nm: (0..51).map(|i| bits(220.0 + 2.0 * i as f32)).collect(),
        values: (0..51).map(|i| if i == 23 { bits(100.0) } else { bits(1.0) }).collect(),
    }];
    h.text.raw[0] = "SYNTH LED".into();
    h.text.raw[1] = "eulumdat-rs".into();
    h.text.raw[6] = "150mA".into();
    h
}

fn all_rays(f: &Tm25File<'_>) -> Vec<Ray> {
    let mut out = Vec::new();
    let mut it = f.rays.iter();
    while let Some(r) = it.next() {
        out.push(r);
    }
    out
}

#[test]
fn axis_mapping_matches_photometric_solid() {
    // Emission axis (+z) lands on Bevy −Y, C = 0 (+x) on +X, C = 90 (+y) on +Z.
    assert_eq!(floats3(to_bevy(bits3([0.0, 0.0, 1.0]))), [0.0, -1.0, 0.0]);
    assert_eq!(floats3(to_bevy(bits3([1.0, 0.0, 0.0]))), [1.0, 0.0, 0.0]);
    assert_eq!(floats3(to_bevy(bits3([0.0, 1.0, 0.0]))), [0.0, 0.0, 1.0]);
    assert_eq!(floats3(from_bevy(to_bevy(bits3([0.3, -0.7, 2.0])))), [0.3, -0.7, 2.0]);
    // Proper rotation: (x × y) · z stays +1.
    let (a, b, c) = (
        floats3(to_bevy(bits3([1.0, 0.0, 0.0]))),
        floats3(to_bevy(bits3([0.0, 1.0, 0.0]))),
        floats3(to_bevy(bits3([0.0, 0.0, 1.0]))),
    );
    let cross = [
        a[1] * b[2] - a[2] * b[1],
        a[2] * b[0] - a[0] * b[2],
        a[0] * b[1] - a[1] * b[0],
    ];
    let det = cross[0] * c[0] + cross[1] * c[1] + cross[2] * c[2];
    assert_eq!(det, 1.0);
}

#[test]
fn round_trip_header_and_rays() {
    let rays = lambertian_rays(1000, 5.1e-5, 1);
    let bytes = to_bytes(&header_uv(), &rays).unwrap();
    // Ray block starts right after the 51-point table + name count.
    assert_eq!(bytes.len(), 36_704 + 1000 * 28);
    let f = Tm25File::parse(&bytes).unwrap();
    assert_eq!(f.header.version, 2013);
    assert_eq!(f.header.creation_method, -1);
    assert_eq!(f.header.n_rays, 1000);
    assert_eq!(f.header.ray_start, 36_704);
    assert_eq!(f.header.record_size(), 28);
    assert_eq!(f.header.date_time, "2026-05-12 13:57:44");
    assert_eq!(f.header.spectral_id, SpectralId::SharedTable);
    assert_eq!(f.header.single_wavelength_nm(), None);
    assert_eq!(f.header.min_wavelength_nm(), Some(bits(220.0)));
    assert_eq!(f.header.flux_kind(), FluxKind::Radiometric);
    assert_eq!(f.header.text.name(), "SYNTH LED");
    assert_eq!(f.header.text.operating_condition(), "150mA");
    let t = f.header.shared_spectrum().unwrap();
    assert_eq!(t.len(), 51);
    assert_eq!(t.peak(), Some((bits(266.0), bits(100.0))));
    assert_eq!(f.rays.len(), 1000);
    for (i, r) in all_rays(&f).into_iter().enumerate() {
        assert_eq!(r, rays[i]);
    }
    assert_eq!(f.rays.get(1000), None);
    // Header re-encodes identically.
    let again = encode_header(&f.header, 1000).unwrap();
    assert_eq!(again, &bytes[..36_704]);
}

#[test]
fn errors_are_descriptive() {
    let rays = lambertian_rays(10, 1.0, 2);
    let bytes = to_bytes(&header_uv(), &rays).unwrap();

    let mut bad = bytes.clone();
    bad[0] = b'X';
    assert!(matches!(Tm25File::parse(&bad), Err(Tm25Error::BadMagic(_))));

    let mut bad = bytes.clone();
    bad[4..8].copy_from_slice(&2020i32.to_le_bytes());
    assert!(matches!(Tm25File::parse(&bad), Err(Tm25Error::UnsupportedVersion(2020))));

    assert!(matches!(Tm25File::parse(&bytes[..100]), Err(Tm25Error::Truncated { .. })));
    assert!(matches!(Tm25File::parse(&bytes[..36_500]), Err(Tm25Error::Truncated { .. })));

    assert!(matches!(
        Tm25File::parse(&bytes[..bytes.len() - 5]),
        Err(Tm25Error::SizeMismatch { ray_start: 36_704, .. })
    ));

    // No flux column at all is rejected strictly, accepted leniently.
    let mut h = header_uv();
    h.flags.radiant_flux = false;
    h.spectral_id = SpectralId::NoSpectrum;
    h.spectra.clear();
    let plain: Vec<Ray> = rays.iter().map(|r| Ray::new(r.position(), r.direction())).collect();
    let b = to_bytes(&h, &plain).unwrap();
    assert!(matches!(Tm25File::parse(&b), Err(Tm25Error::InvalidHeader(_))));
    let lenient =
        Tm25File::parse_with(&b, &ParseOptions { strict_flags: false, ..Default::default() })
            .unwrap();
    assert_eq!(lenient.header.record_size(), 24);
    assert_eq!(lenient.rays.get(0).unwrap().radiant_flux_w, None);

    // Bad UTF-32 in a text field.
    let mut bad = bytes.clone();
    bad[288..292].copy_from_slice(&0x0011_0000u32.to_le_bytes());
    assert!(matches!(Tm25File::parse(&bad), Err(Tm25Error::InvalidText { field: "name", .. })));
}

#[test]
fn additional_items_shift_the_ray_block() {
    let mut h = header_uv();
    h.n_additional_items = 1;
    h.column_names = vec!["phase".to_string()];
    h.additional_text = "hi".to_string();
    let rays = lambertian_rays(5, 1.0, 3);
    let bytes = to_bytes(&h, &rays).unwrap();
    let f = Tm25File::parse(&bytes).unwrap();
    // count(4) + len(4) + 5 chars (20) + 2 text chars (8) after the table.
    assert_eq!(f.header.ray_start, 36_700 + 4 + 4 + 20 + 8);
    assert_eq!(f.header.record_size(), 32);
    assert_eq!(f.header.columns.last(), Some(&Column::Additional(0)));
    assert_eq!(f.header.column_names, vec!["phase".to_string()]);
    assert_eq!(f.header.additional_text, "hi");
    assert_eq!(f.header.additional_text_size, 2);
    assert_eq!(f.rays.get(4).unwrap().position(), rays[4].position());
    assert_eq!(
        f.rays.layout().field(f.rays.raw(0).unwrap(), Column::Additional(0)),
        Some(bits(0.0))
    );
}

#[test]
fn photometric_and_both_layouts() {
    let mut h = Header::new(KnownDataFlags::photometric());
    h.luminous_flux_bits = bits(100.0);
    let rays: Vec<Ray> = lambertian_rays(3, 1.0, 4)
        .into_iter()
        .map(|r| Ray::new(r.position(), r.direction()).with_luminous_flux(bits(2.5)))
        .collect();
    let bytes = to_bytes(&h, &rays).unwrap();
    let f = Tm25File::parse(&bytes).unwrap();
    assert_eq!(f.header.flux_kind(), FluxKind::Photometric);
    assert_eq!(f.rays.get(0).unwrap().luminous_flux_lm, Some(bits(2.5)));
    assert_eq!(f.rays.get(0).unwrap().flux(FluxKind::Photometric), bits(2.5));

    let mut h = Header::new(KnownDataFlags { luminous_flux: true, ..KnownDataFlags::radiometric() });
    h.radiant_flux_bits = bits(1.0);
    h.luminous_flux_bits = bits(683.0);
    let rays: Vec<Ray> = rays.iter().map(|r| r.with_radiant_flux(bits(0.01))).collect();
    let bytes = to_bytes(&h, &rays).unwrap();
    let f = Tm25File::parse(&bytes).unwrap();
    assert_eq!(f.header.flux_kind(), FluxKind::Both);
    assert_eq!(f.header.record_size(), 32);
    assert_eq!(f.header.column_index(Column::LuminousFlux), Some(7));
}

/// A source that hands out at most `piece` bytes per read.
struct Trickle<'a>(&'a [u8], usize);

impl Trickle<'_> {
    fn read(&mut self, buf: &mut [u8]) -> usize {
        let n = buf.len().min(self.1).min(self.0.len());
        buf[..n].copy_from_slice(&self.0[..n]);
        self.0 = &self.0[n..];
        n
    }
}

/// The streaming reader's loop over a trickling source: grow the buffer
/// until the header parses, then hand each chunk its bytes.
fn open_stream(src: &mut Trickle<'_>) -> Result<StreamDecoder, Tm25Error> {
    let mut buf: Vec<u8> = Vec::new();
    let mut needed = FIRST_HEADER_READ;
    let header = loop {
        let mut ended = false;
        while buf.len() < needed {
            let old = buf.len();
            buf.resize(needed, 0);
            let n = src.read(&mut buf[old..needed]);
            buf.truncate(old + n);
            if n == 0 {
                ended = true;
                break;
            }
        }
        match header_step(&buf, needed, ended, &ParseOptions::default()) {
            HeaderStep::Parsed(h) => break h,
            HeaderStep::NeedMore(more) => needed = more,
            HeaderStep::Failed(e) => return Err(e),
        }
    };
    Ok(StreamDecoder::new(header, buf))
}

fn read_chunk(dec: &mut StreamDecoder, src: &mut Trickle<'_>, max: usize) -> Result<Vec<Ray>, Tm25Error> {
    let want = dec.want_bytes(max);
    let mut tmp = vec![0u8; 4096];
    while dec.buffered() < want {
        let got = src.read(&mut tmp);
        if got == 0 {
            return Err(dec.eof_error());
        }
        dec.feed(&tmp[..got]);
    }
    Ok(dec.take_chunk(max))
}

#[test]
fn streaming_reader_matches_slice_reader() {
    let rays = lambertian_rays(10_007, 1e-6, 5);
    let bytes = to_bytes(&header_uv(), &rays).unwrap();
    let slice = Tm25File::parse(&bytes).unwrap();

    // Feed through a source that returns tiny pieces to exercise buffering.
    let mut src = Trickle(&bytes, 1000);
    let mut reader = open_stream(&mut src).unwrap();
    assert_eq!(reader.header(), &slice.header);
    let mut all = Vec::new();
    loop {
        let chunk = read_chunk(&mut reader, &mut src, 999).unwrap();
        if chunk.is_empty() {
            break;
        }
        all.extend(chunk);
    }
    assert_eq!(all.len(), 10_007);
    assert!(all.iter().zip(all_rays(&slice).iter()).all(|(a, b)| a == b));

    let mut src = Trickle(&bytes, 4096);
    let mut reader = open_stream(&mut src).unwrap();
    let mut streamed = Vec::new();
    loop {
        let chunk = read_chunk(&mut reader, &mut src, 65_536).unwrap();
        if chunk.is_empty() {
            break;
        }
        streamed.extend(chunk);
    }
    assert_eq!(streamed, all);

    // Early EOF is a ray-count error, not a panic.
    let mut src = Trickle(&bytes[..bytes.len() - 28 * 10], 4096);
    let mut short = open_stream(&mut src).unwrap();
    let mut got = 0u64;
    let err = loop {
        match read_chunk(&mut short, &mut src, 4096) {
            Ok(v) if v.is_empty() => panic!("expected an error"),
            Ok(v) => got += v.len() as u64,
            Err(e) => break e,
        }
    };
    assert!(matches!(err, Tm25Error::RayCountMismatch { expected: 10_007, actual } if actual >= got));
}

#[test]
fn subsampling_preserves_flux_and_is_deterministic() {
    let rays = lambertian_rays(5000, 1e-5, 6);
    let bytes = to_bytes(&header_uv(), &rays).unwrap();
    let f = Tm25File::parse(&bytes).unwrap();

    let a = subsample_rays(&f.rays, 500, 42);
    let b = subsample_rays(&f.rays, 500, 42);
    let c = subsample_rays(&f.rays, 500, 43);
    assert_eq!(a.len(), 500);
    assert_eq!(a, b);
    assert_ne!(a, c);
    assert_eq!(subsample_rays(&f.rays, 10_000, 1).len(), 5000);

    let every = all_rays(&f);
    let mut res = ReservoirSlots::new(300, 7);
    for r in &every {
        res.push(*r);
    }
    assert_eq!(res.seen(), 5000);
    let kept = res.into_kept();
    assert_eq!(kept.len(), 300);
    let mut res2 = ReservoirSlots::new(300, 7);
    for r in &every {
        res2.push(*r);
    }
    assert_eq!(res2.into_kept(), kept);
}
