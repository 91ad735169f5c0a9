use cathar::aac::{aac_lc_specific_config, he_aac_lc_candidates, lc_candidates_for, AscInfo};
use cathar::container::{
    aiff_bytes, container_for_extension, fix_block_sizes, flac_bytes, ieee754_extended,
    mono_channel_mask_patch, Container, CHANNEL_MASK_OFFSET,
};
use cathar::error::Error;
use symphonia_common::mpeg::audio::{AudioObjectType, AudioSpecificConfig};

#[test]
fn aac_lc_asc_round_trips() {
    let extra = aac_lc_specific_config(22050, 2).unwrap();
    let asc = AudioSpecificConfig::read(&extra).unwrap();
    assert_eq!(asc.object_type, AudioObjectType::Lc);
    assert!(!asc.sbr_present);
    assert_eq!(asc.sample_rate, 22050);
    assert_eq!(asc.samples, 1024);
    assert_eq!(asc.channels.unwrap().count(), 2);
}

#[test]
fn he_aac_explicit_sbr_falls_back_to_lc_core() {
    // AOT=5 (SBR), 44.1 kHz out, stereo, 22.05 kHz core, nested AOT=LC, 1024-frame.
    let extra = [0x2A, 0x13, 0x88, 0x00];
    let cands = he_aac_lc_candidates(&extra);
    assert!(cands.iter().any(|&(_, core, out)| core == 22050 && out == 44100));
    assert!(cands.iter().any(|&(_, core, out)| core == 44100 && out == 22050));
    let (lc, core, out) = &cands[0];
    assert_eq!(*core, 22050);
    assert_eq!(*out, 44100);
    let asc = AudioSpecificConfig::read(lc).unwrap();
    assert_eq!(asc.object_type, AudioObjectType::Lc);
    assert!(!asc.sbr_present);
    assert_eq!(asc.sample_rate, 22050);
}

#[test]
fn lc_config_bytes_for_standard_and_escaped_rates() {
    // 44.1 kHz is table index 4: AOT 2, index 4, one channel.
    assert_eq!(&*aac_lc_specific_config(44_100, 1).unwrap(), &[0x12, 0x08]);
    // 48 kHz stereo: index 3.
    assert_eq!(&*aac_lc_specific_config(48_000, 2).unwrap(), &[0x11, 0x90]);
    // 12345 Hz is not in the table: escape index 15 and a 24-bit rate.
    let esc = aac_lc_specific_config(12_345, 2).unwrap();
    assert_eq!(esc.len(), 5);
    let asc = AudioSpecificConfig::read(&esc).unwrap();
    assert_eq!(asc.sample_rate, 12_345);
    assert_eq!(asc.channels.unwrap().count(), 2);
}

#[test]
fn lc_config_rejects_channel_counts_without_a_configuration() {
    assert!(aac_lc_specific_config(44_100, 0).is_none());
    assert!(aac_lc_specific_config(44_100, 8).is_none());
    assert!(aac_lc_specific_config(44_100, 7).is_some());
}

#[test]
fn lc_candidates_without_explicit_rate_try_double_then_half() {
    let asc = AscInfo {
        object_type_is_lc: true,
        sample_rate: 24_000,
        channel_count: Some(2),
        samples: 1024,
        sbr_ext_rate: None,
        sbr_present: true,
    };
    let c = lc_candidates_for(Some(asc));
    let rates: Vec<(u32, u32)> = c.iter().map(|(_, core, out)| (*core, *out)).collect();
    assert_eq!(rates, vec![(24_000, 48_000), (12_000, 24_000)]);
    assert_eq!(&*c[0].0, &*aac_lc_specific_config(24_000, 2).unwrap());
}

#[test]
fn lc_candidates_need_sbr_and_a_small_lc_core() {
    let base = AscInfo {
        object_type_is_lc: true,
        sample_rate: 24_000,
        channel_count: Some(2),
        samples: 1024,
        sbr_ext_rate: None,
        sbr_present: false,
    };
    assert!(lc_candidates_for(Some(base)).is_empty());
    assert!(lc_candidates_for(Some(AscInfo { sbr_present: true, channel_count: Some(6), ..base })).is_empty());
    assert!(lc_candidates_for(Some(AscInfo { sbr_present: true, samples: 960, ..base })).is_empty());
    assert!(lc_candidates_for(None).is_empty());
    assert!(he_aac_lc_candidates(&[]).is_empty());
}

#[test]
fn ieee754_extended_encodes_44100() {
    assert_eq!(ieee754_extended(44_100), [0x40, 0x0e, 0xac, 0x44, 0x00, 0x00, 0x00, 0x00, 0x00, 0x00]);
}

#[test]
fn ieee754_extended_encodes_48000_and_zero() {
    assert_eq!(ieee754_extended(48_000), [0x40, 0x0e, 0xbb, 0x80, 0, 0, 0, 0, 0, 0]);
    assert_eq!(ieee754_extended(1), [0x3f, 0xff, 0x80, 0, 0, 0, 0, 0, 0, 0]);
    assert_eq!(ieee754_extended(0), [0; 10]);
}

#[test]
fn aiff_image_has_form_comm_and_ssnd() {
    // Two stereo frames of 24-bit PCM.
    let samples = vec![1, -1, 0x7f_ffff, -0x80_0000];
    let img = aiff_bytes(&samples, 2, 2, 44_100);
    assert_eq!(&img[0..4], b"FORM");
    assert_eq!(u32::from_be_bytes([img[4], img[5], img[6], img[7]]) as usize, img.len() - 8);
    assert_eq!(&img[8..12], b"AIFF");
    assert_eq!(&img[12..16], b"COMM");
    assert_eq!(&img[16..20], &[0, 0, 0, 18]);
    assert_eq!(&img[20..22], &[0, 2]); // channels
    assert_eq!(&img[22..26], &[0, 0, 0, 2]); // frames
    assert_eq!(&img[26..28], &[0, 24]); // bit depth
    assert_eq!(&img[28..38], &ieee754_extended(44_100));
    assert_eq!(&img[38..42], b"SSND");
    assert_eq!(&img[42..46], &[0, 0, 0, 20]);
    assert_eq!(&img[46..54], &[0; 8]);
    assert_eq!(
        &img[54..],
        &[0, 0, 1, 0xff, 0xff, 0xff, 0x7f, 0xff, 0xff, 0x80, 0, 0]
    );
}

#[test]
fn fix_block_sizes_copies_max_over_min() {
    let mut head = b"fLaC".to_vec();
    head.extend_from_slice(&[0, 0, 0, 34, 0x00, 0x10, 0x10, 0x00]);
    let fixed = fix_block_sizes(head.clone());
    assert_eq!(&fixed[8..12], &[0x10, 0x00, 0x10, 0x00]);
    assert_eq!(&fixed[..8], &head[..8]);
    let mut longer = head.clone();
    longer.extend_from_slice(&[9, 8, 7]);
    let fixed_longer = fix_block_sizes(longer.clone());
    assert_eq!(&fixed_longer[12..], &[9, 8, 7]);
    let short = vec![1u8, 2, 3];
    assert_eq!(fix_block_sizes(short.clone()), short);
}

#[test]
fn flac_stream_is_fixed_block_size() {
    let samples: Vec<i32> = (0..10_000).map(|i| ((i * 37) % 2001) - 1000).collect();
    let bytes = flac_bytes(&samples, 2, 44_100).unwrap();
    assert_eq!(&bytes[0..4], b"fLaC");
    assert_eq!(&bytes[8..10], &bytes[10..12]);
}

#[test]
fn flac_rejects_too_many_channels() {
    let samples = vec![0i32; 90];
    match flac_bytes(&samples, 9, 44_100) {
        Err(Error::Encode(_)) => {}
        other => panic!("expected an encode error, got {:?}", other.map(|b| b.len())),
    }
}

#[test]
fn mono_extensible_header_gets_front_center_patch() {
    let mut h = Vec::new();
    h.extend_from_slice(b"RIFF");
    h.extend_from_slice(&[0x24, 0, 0, 0]);
    h.extend_from_slice(b"WAVE");
    h.extend_from_slice(b"fmt ");
    h.extend_from_slice(&[40, 0, 0, 0]);
    h.extend_from_slice(&[0xFE, 0xFF]);
    h.extend_from_slice(&[1, 0]);
    assert_eq!(mono_channel_mask_patch(&h), Some((CHANNEL_MASK_OFFSET, [4, 0, 0, 0])));
    let mut stereo = h.clone();
    stereo[22] = 2;
    assert_eq!(mono_channel_mask_patch(&stereo), None);
    let mut pcm = h.clone();
    pcm[20] = 1;
    pcm[21] = 0;
    assert_eq!(mono_channel_mask_patch(&pcm), None);
    assert_eq!(mono_channel_mask_patch(&h[..20]), None);
}

#[test]
fn container_follows_extension_ignoring_case() {
    assert_eq!(container_for_extension(Some("flac")), Container::Flac);
    assert_eq!(container_for_extension(Some("FLAC")), Container::Flac);
    assert_eq!(container_for_extension(Some("aif")), Container::Aiff);
    assert_eq!(container_for_extension(Some("AiFf")), Container::Aiff);
    assert_eq!(container_for_extension(Some("wav")), Container::Wav);
    assert_eq!(container_for_extension(Some("mp3")), Container::Wav);
    assert_eq!(container_for_extension(None), Container::Wav);
}
