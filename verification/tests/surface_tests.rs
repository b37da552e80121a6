use terrain_tiles::attachment::TexelFormat;
use terrain_tiles::surface::height_bounds;

#[test]
fn wide_samples_are_read_little_endian() {
    // samples 1, 511, 0
    let bytes = vec![1, 0, 255, 1, 0, 0];
    assert_eq!(height_bounds(TexelFormat::R16, &bytes), (0, 511));
}

#[test]
fn narrow_samples_are_plain_bytes() {
    let bytes = vec![5, 2, 9];
    assert_eq!(height_bounds(TexelFormat::R8, &bytes), (2, 9));
}

#[test]
fn multi_channel_formats_sample_the_first_channel() {
    // two texels of four bytes each; first channels 0x0102 and 0x0003
    let bytes = vec![2, 1, 99, 99, 3, 0, 99, 99];
    assert_eq!(height_bounds(TexelFormat::Rg16, &bytes), (3, 258));
    // first bytes 2 and 3 for the four-channel byte format
    assert_eq!(height_bounds(TexelFormat::Rgba8, &bytes), (2, 3));
}

#[test]
fn an_empty_payload_yields_the_conservative_range() {
    assert_eq!(height_bounds(TexelFormat::R16, &Vec::new()), (0, 0xffff));
    // a trailing partial sample is ignored
    assert_eq!(height_bounds(TexelFormat::R16, &vec![7]), (0, 0xffff));
}

#[test]
fn constant_payloads_collapse_the_interval() {
    let bytes = vec![4, 0, 4, 0, 4, 0];
    assert_eq!(height_bounds(TexelFormat::R16, &bytes), (4, 4));
}
