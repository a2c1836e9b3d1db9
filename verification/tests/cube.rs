use lutdinho::cube::{Color, Cube, Mode, ParseError};
use lutdinho::raster::Image;
use lutdinho::utils::{vertical_stack, StackError};

fn lines(text: &[&str]) -> Vec<String> {
    text.iter().map(|l| format!("{}\n", l)).collect()
}

/// The identity table of the given edge size, as a `.cube` text.
fn identity_lut(edge: usize) -> Vec<String> {
    let mut text = vec![
        "# Created for a test\n".to_string(),
        "TITLE \"identity\"\n".to_string(),
        format!("LUT_3D_SIZE {}\n", edge),
        "\n".to_string(),
    ];
    let top = (edge - 1) as f32;
    for b in 0..edge {
        for g in 0..edge {
            for r in 0..edge {
                text.push(format!(
                    "{:.6} {:.6} {:.6}\n",
                    r as f32 / top,
                    g as f32 / top,
                    b as f32 / top
                ));
            }
        }
    }
    text
}

fn level(channel: &str) -> u8 {
    (channel.parse::<f32>().unwrap() * 255.).clamp(0., 255.) as u8
}

fn shades(cube: &Cube) -> Vec<(u8, u8, u8)> {
    cube.values
        .iter()
        .map(|c| (level(c.red()), level(c.green()), level(c.blue())))
        .collect()
}

fn encode_png(img: &Image) -> Vec<u8> {
    let copy = image::RgbImage::from_fn(img.width(), img.height(), |x, y| {
        let (r, g, b) = img.pixel(x, y).unwrap();
        image::Rgb([r, g, b])
    });
    let mut bytes = std::io::Cursor::new(Vec::new());
    copy.write_to(&mut bytes, image::ImageFormat::Png).unwrap();
    bytes.into_inner()
}

#[test]
fn test_parse() {
    let cube = Cube::parse(&identity_lut(32)).unwrap();
    assert_eq!(cube.size, 32);
    assert_eq!(cube.values.len(), 32768);
}

#[test]
fn test_image() {
    let cube = Cube::parse(&identity_lut(32)).unwrap();
    assert!(cube.fits(Some(64)));
    let img = cube.generate_image(&shades(&cube), Some(64)).unwrap();
    let png = encode_png(&img);
    assert_eq!(&png[1..4], b"PNG");
}

#[test]
fn parse_of_32768_triplets_is_32_slices() {
    let cube = Cube::parse(&identity_lut(32)).unwrap();
    assert_eq!(cube.size, 32);
    assert_eq!(cube.values.len(), 32768);
    assert_eq!(cube.n_images, 32);
    assert_eq!(cube.n_images, cube.values.len() / (cube.size * cube.size));
}

#[test]
fn parse_keeps_samples_in_file_order() {
    let cube = Cube::parse(&lines(&[
        "LUT_3D_SIZE 2",
        "0 0.5 1.0e-05",
        "# a comment",
        "1 0.25 0.125",
        "0.1 0.2 0.3",
        "0.4 0.5 0.6",
    ]))
    .unwrap();
    assert_eq!(cube.size, 2);
    assert_eq!(cube.n_images, 1);
    assert_eq!(cube.values.len(), 4);
    assert_eq!(cube.values[0].red(), "0");
    assert_eq!(cube.values[0].green(), "0.5");
    assert_eq!(cube.values[0].blue(), "1.0e-05");
    assert_eq!(cube.values[1].red(), "1");
    assert_eq!(cube.values[3].blue(), "0.6");
}

#[test]
fn parse_passes_over_lines_before_the_header() {
    let cube = Cube::parse(&lines(&[
        "0.9 0.9 0.9",
        "TITLE x",
        "LUT_3D_SIZE 1",
        "0.1 0.2 0.3",
    ]))
    .unwrap();
    assert_eq!(cube.size, 1);
    assert_eq!(cube.values.len(), 1);
    assert_eq!(cube.values[0].red(), "0.1");
    assert_eq!(cube.n_images, 1);
}

#[test]
fn parse_takes_lines_of_exactly_three_numerals() {
    let cube = Cube::parse(&lines(&[
        "LUT_3D_SIZE 1",
        "x 12.5 3 4",
        "1 2 3 4",
        "1 2",
        "DOMAIN_MIN 0.0 0.0 0.0",
        "0.1 0.2 0.3 # trailing text",
        "12.5 3 4",
    ]))
    .unwrap();
    assert_eq!(cube.values.len(), 1);
    assert_eq!(cube.values[0].red(), "12.5");
    assert_eq!(cube.values[0].green(), "3");
    assert_eq!(cube.values[0].blue(), "4");
}

#[test]
fn parse_takes_any_white_space_between_numerals() {
    let text = vec!["LUT_3D_SIZE 1\n".to_string(), "0.0\t0.5\t1.0\n".to_string()];
    let cube = Cube::parse(&text).unwrap();
    assert_eq!((cube.size, cube.values.len(), cube.n_images), (1, 1, 1));
    let c = &cube.values[0];
    assert_eq!((c.red(), c.green(), c.blue()), ("0.0", "0.5", "1.0"));
    assert_eq!(shades(&cube), vec![(0, 127, 255)]);

    let cube = Cube::parse(&lines(&[
        "LUT_3D_SIZE\t 2",
        "  0.1   0.2 \t 0.3  ",
        "0.4 0.5 0.6\r",
    ]))
    .unwrap();
    assert_eq!((cube.size, cube.values.len(), cube.n_images), (2, 2, 0));
    assert_eq!(cube.values[0].blue(), "0.3");
    assert_eq!(cube.values[1].blue(), "0.6");
}

#[test]
fn parse_takes_signs_long_integers_and_both_exponents() {
    let cube = Cube::parse(&lines(&[
        "LUT_3D_SIZE 1",
        "10.0 -0.5 +1",
        "1.0e+02 0 0",
        "1e-5 1.0E-05 2E3",
    ]))
    .unwrap();
    assert_eq!(cube.values.len(), 3);
    let c = &cube.values[0];
    assert_eq!((c.red(), c.green(), c.blue()), ("10.0", "-0.5", "+1"));
    let c = &cube.values[1];
    assert_eq!((c.red(), c.green(), c.blue()), ("1.0e+02", "0", "0"));
    let c = &cube.values[2];
    assert_eq!((c.red(), c.green(), c.blue()), ("1e-5", "1.0E-05", "2E3"));
    assert_eq!(
        shades(&cube),
        vec![(255, 0, 255), (255, 0, 0), (0, 0, 255)]
    );
}

#[test]
fn header_takes_any_white_space_before_the_size() {
    let cube = Cube::parse(&lines(&["LUT_3D_SIZE  3"])).unwrap();
    assert_eq!(cube.size, 3);
    let cube = Cube::parse(&lines(&["LUT_3D_SIZE\t4 # edge"])).unwrap();
    assert_eq!(cube.size, 4);
    let r = Cube::parse(&lines(&["LUT_3D_SIZE 32abc"]));
    assert_eq!(r.unwrap_err(), ParseError::NumberFormat);
    let r = Cube::parse(&lines(&["LUT_3D_SIZE"]));
    assert_eq!(r.unwrap_err(), ParseError::NumberFormat);
    let r = Cube::parse(&["LUT_3D_SIZE".to_string()]);
    assert_eq!(r.unwrap_err(), ParseError::MissingSizeHeader);
}

#[test]
fn strict_mode_rejects_a_malformed_numeric_line() {
    let good = lines(&[
        "# comment",
        "LUT_3D_SIZE 1",
        "",
        "TITLE 3",
        "DOMAIN_MAX 1.0 1.0 1.0",
        "0.1 0.2 0.3",
    ]);
    let cube = Cube::parse_strict(&good).unwrap();
    assert_eq!(cube.values.len(), 1);
    assert_eq!(Cube::parse_with(&good, Mode::Strict).unwrap().values.len(), 1);

    for bad in ["0.1 0.2", "0.1 0.2 0.3 0.4", "0.1 0.2 x", " .5 1 1", "-", "1. 2 3", "0.1,0.2,0.3"] {
        let text = lines(&["LUT_3D_SIZE 1", "0.1 0.2 0.3", bad]);
        assert_eq!(
            Cube::parse_strict(&text).unwrap_err(),
            ParseError::NumberFormat,
            "{}",
            bad
        );
        let cube = Cube::parse(&text).unwrap();
        assert_eq!(cube.values.len(), 1, "{}", bad);
        assert_eq!(Cube::parse_with(&text, Mode::Lenient).unwrap().values.len(), 1);
    }
}

#[test]
fn strict_mode_keeps_the_other_errors() {
    assert_eq!(
        Cube::parse_strict(&lines(&["0.5 0.5"])).unwrap_err(),
        ParseError::MissingSizeHeader
    );
    assert_eq!(
        Cube::parse_strict(&lines(&["LUT_3D_SIZE 2", "0 0 0"])).unwrap_err(),
        ParseError::SizeMismatch { actual: 1, edge_size: 2 }
    );
}

#[test]
fn parse_without_header_is_missing_size_header() {
    let r = Cube::parse(&lines(&["# nothing here", "0.1 0.2 0.3"]));
    assert_eq!(r.unwrap_err(), ParseError::MissingSizeHeader);
    let none: Vec<String> = Vec::new();
    assert_eq!(Cube::parse(&none).unwrap_err(), ParseError::MissingSizeHeader);
}

#[test]
fn parse_of_bad_edge_size_is_number_format() {
    let r = Cube::parse(&lines(&["LUT_3D_SIZE abc", "0.1 0.2 0.3"]));
    assert_eq!(r.unwrap_err(), ParseError::NumberFormat);
    let r = Cube::parse(&lines(&["LUT_3D_SIZE 0"]));
    assert_eq!(r.unwrap_err(), ParseError::NumberFormat);
    let r = Cube::parse(&lines(&["LUT_3D_SIZE 99999999999999999999999999"]));
    assert_eq!(r.unwrap_err(), ParseError::NumberFormat);
    let r = Cube::parse(&lines(&["LUT_3D_SIZE \u{0663}"]));
    assert_eq!(r.unwrap_err(), ParseError::NumberFormat);
}

#[test]
fn parse_of_foreign_digits_in_a_sample_is_number_format() {
    let r = Cube::parse(&lines(&["LUT_3D_SIZE 1", "\u{0661} 0.5 0.5"]));
    assert_eq!(r.unwrap_err(), ParseError::NumberFormat);
}

#[test]
fn parse_of_indivisible_count_is_size_mismatch() {
    let r = Cube::parse(&lines(&[
        "LUT_3D_SIZE 2",
        "0.1 0.2 0.3",
        "0.1 0.2 0.3",
        "0.1 0.2 0.3",
    ]));
    assert_eq!(
        r.unwrap_err(),
        ParseError::SizeMismatch { actual: 3, edge_size: 2 }
    );
}

#[test]
fn parse_of_header_alone_is_an_empty_table() {
    let cube = Cube::parse(&lines(&["LUT_3D_SIZE 4"])).unwrap();
    assert_eq!((cube.size, cube.values.len(), cube.n_images), (4, 0, 0));
    assert_eq!(
        cube.generate_image(&[], None).unwrap_err(),
        StackError::EmptyInput
    );
}

#[test]
fn slice_count_counts_whole_slices_only() {
    let mut text = vec!["LUT_3D_SIZE 2".to_string()];
    for _ in 0..6 {
        text.push("0.5 0.5 0.5".to_string());
    }
    let cube = Cube::parse(&text).unwrap();
    assert_eq!((cube.values.len(), cube.n_images), (6, 1));
}

#[test]
fn assemble_checks_the_count() {
    let c = |t: &str| Color::new(t, t, t).unwrap();
    let cube = Cube::assemble(3, vec![c("0"), c("0.5"), c("1")]).unwrap();
    assert_eq!((cube.size, cube.values.len(), cube.n_images), (3, 3, 0));
    let r = Cube::assemble(2, vec![c("0"), c("0.5"), c("1")]);
    assert_eq!(
        r.unwrap_err(),
        ParseError::SizeMismatch { actual: 3, edge_size: 2 }
    );
    let cube = Cube::assemble(1, vec![c("0"), c("0.5")]).unwrap();
    assert_eq!(cube.n_images, 2);
}

#[test]
fn color_new_takes_channel_numerals_only() {
    assert!(Color::new("0", "0.5", "1.0e-05").is_some());
    assert!(Color::new("10", "-0.5", "1.0E+05").is_some());
    assert!(Color::new("", "0.5", "1").is_none());
    assert!(Color::new("1.", "0.5", "1").is_none());
    assert!(Color::new("0", "0.5", "1e").is_none());
    let c = Color::new("0.25", "1", "0.003922").unwrap();
    assert_eq!((c.red(), c.green(), c.blue()), ("0.25", "1", "0.003922"));
}

#[test]
fn color_from_groups_reads_groups_one_to_three() {
    let groups = vec![
        Some("0.1 0.2 0.3".to_string()),
        Some("0.1".to_string()),
        Some("0.2".to_string()),
        Some("0.3".to_string()),
    ];
    let c = Color::from_groups(&groups).unwrap();
    assert_eq!((c.red(), c.green(), c.blue()), ("0.1", "0.2", "0.3"));
    let short = vec![Some("0.1".to_string()), Some("0.1".to_string())];
    assert!(Color::from_groups(&short).is_none());
    let gap = vec![
        Some("x".to_string()),
        Some("0.1".to_string()),
        None,
        Some("0.3".to_string()),
    ];
    assert!(Color::from_groups(&gap).is_none());
}

#[test]
fn group_is_empty_where_there_is_none() {
    let groups = vec![Some("ab".to_string()), None];
    assert_eq!(lutdinho::cube::group(&groups, 0), "ab");
    assert_eq!(lutdinho::cube::group(&groups, 1), "");
    assert_eq!(lutdinho::cube::group(&groups, 2), "");
}

#[test]
fn render_maps_flat_index_to_pixels() {
    let edge = 3usize;
    let cube = Cube::parse(&identity_lut(edge)).unwrap();
    assert_eq!(cube.n_images, 3);
    let shades: Vec<(u8, u8, u8)> = (0..27u8).map(|k| (k, 100 + k, 200 + k)).collect();
    assert!(cube.fits(None));
    let tiles = cube.render(&shades, None);
    assert_eq!(tiles.len(), 3);
    for i in 0..3usize {
        assert_eq!((tiles[i].width(), tiles[i].height()), (3, 3));
        for y in 0..3usize {
            for x in 0..3usize {
                let k = x + y * edge + edge * edge * i;
                assert_eq!(tiles[i].pixel(x as u32, y as u32), Some(shades[k]));
            }
        }
    }
    assert_eq!(tiles[1].pixel(2, 1), Some((14, 114, 214)));
    assert_eq!(tiles[0].pixel(3, 0), None);
}

#[test]
fn render_converts_channels_by_truncation() {
    let cube = Cube::parse(&lines(&["LUT_3D_SIZE 1", "0.5 1 0.003922"])).unwrap();
    let shades = shades(&cube);
    assert_eq!(shades, vec![(127, 255, 1)]);
    let tiles = cube.render(&shades, None);
    assert_eq!(tiles[0].pixel(0, 0), Some((127, 255, 1)));
}

#[test]
fn render_with_target_resizes_every_tile_in_place() {
    let cube = Cube::parse(&identity_lut(4)).unwrap();
    let shades = shades(&cube);
    assert!(cube.fits(Some(7)));
    let plain = cube.render(&shades, None);
    let sized = cube.render(&shades, Some(7));
    assert_eq!(sized.len(), 4);
    for i in 0..4 {
        assert_eq!((sized[i].width(), sized[i].height()), (7, 7));
        let alone = plain[i].resize(7);
        for y in 0..7 {
            for x in 0..7 {
                assert_eq!(sized[i].pixel(x, y), alone.pixel(x, y));
            }
        }
    }
    assert_ne!(sized[0].pixel(3, 3), sized[3].pixel(3, 3));
}

#[test]
fn render_with_target_zero_gives_one_pixel_tiles() {
    let cube = Cube::parse(&identity_lut(2)).unwrap();
    let shades = shades(&cube);
    assert!(cube.fits(Some(0)));
    let sized = cube.render(&shades, Some(0));
    assert_eq!(sized.len(), 2);
    assert_eq!((sized[0].width(), sized[0].height()), (1, 1));
}

#[test]
fn resize_of_a_uniform_tile_keeps_its_colour() {
    assert!(Image::can_hold(2, 2));
    let mut tile = Image::new(2, 2);
    for y in 0..2 {
        for x in 0..2 {
            assert!(tile.set_pixel(x, y, (10, 20, 30)));
        }
    }
    let big = tile.resize(5);
    assert_eq!((big.width(), big.height()), (5, 5));
    assert_eq!(big.pixel(2, 2), Some((10, 20, 30)));
    let same = tile.resize(2);
    assert_eq!((same.width(), same.height()), (2, 2));
    assert_eq!(same.pixel(1, 1), Some((10, 20, 30)));
}

#[test]
fn generate_image_is_the_row_of_the_tiles() {
    let cube = Cube::parse(&identity_lut(3)).unwrap();
    let shades = shades(&cube);
    let tiles = cube.render(&shades, None);
    let row = cube.generate_image(&shades, None).unwrap();
    assert_eq!((row.width(), row.height()), (9, 3));
    for i in 0..3u32 {
        for y in 0..3u32 {
            for x in 0..3u32 {
                assert_eq!(row.pixel(i * 3 + x, y), tiles[i as usize].pixel(x, y));
            }
        }
    }
    assert_eq!(row.pixel(0, 0), Some((0, 0, 0)));
    assert_eq!(row.pixel(8, 2), Some((255, 255, 255)));
    assert_eq!(row.pixel(4, 0), Some((127, 0, 127)));
}

#[test]
fn two_tables_make_two_rows() {
    let first = Cube::parse(&identity_lut(2)).unwrap();
    let mut text = vec!["LUT_3D_SIZE 2\n".to_string()];
    for k in 0..8 {
        text.push(format!("0.{} 0.5 1\n", k));
    }
    let second = Cube::parse(&text).unwrap();
    let rows = vec![
        first.generate_image(&shades(&first), None).unwrap(),
        second.generate_image(&shades(&second), None).unwrap(),
    ];
    let atlas = vertical_stack(&rows).unwrap();
    assert_eq!((atlas.width(), atlas.height()), (4, 4));
    for y in 0..2 {
        for x in 0..4 {
            assert_eq!(atlas.pixel(x, y), rows[0].pixel(x, y));
            assert_eq!(atlas.pixel(x, y + 2), rows[1].pixel(x, y));
        }
    }
    assert_eq!(atlas.pixel(1, 2), Some((25, 127, 255)));
}

#[test]
fn level_saturates_out_of_range_channels() {
    assert_eq!(level("-0.5"), 0);
    assert_eq!(level("1.5"), 255);
    assert_eq!(level("1e3"), 255);
    assert_eq!(level("0.999"), 254);
    assert_eq!(level("1"), 255);
    assert_eq!(level("0"), 0);
}

#[test]
fn resize_to_the_same_side_changes_nothing() {
    let cube = Cube::parse(&identity_lut(3)).unwrap();
    let plain = cube.render(&shades(&cube), None);
    let same = cube.render(&shades(&cube), Some(3));
    for i in 0..3 {
        assert_eq!((same[i].width(), same[i].height()), (3, 3));
        for y in 0..3 {
            for x in 0..3 {
                assert_eq!(same[i].pixel(x, y), plain[i].pixel(x, y));
            }
        }
    }
}

#[test]
fn one_slice_makes_a_row_of_one_tile() {
    let cube = Cube::parse(&lines(&["LUT_3D_SIZE 1", "0.5 0.5 0.5"])).unwrap();
    assert!(cube.fits(None));
    let row = cube.generate_image(&shades(&cube), None).unwrap();
    assert_eq!((row.width(), row.height()), (1, 1));
    assert_eq!(row.pixel(0, 0), Some((127, 127, 127)));
}

#[test]
fn fits_refuses_what_cannot_be_allocated() {
    let cube = Cube::parse(&identity_lut(2)).unwrap();
    assert!(cube.fits(None));
    assert!(cube.fits(Some(1024)));
    assert!(!cube.fits(Some(u32::MAX)));
    let empty = Cube::parse(&lines(&["LUT_3D_SIZE 4"])).unwrap();
    assert!(empty.fits(Some(u32::MAX)));
}

#[test]
fn is_well_formed_checks_the_three_fields() {
    let c = |t: &str| Color::new(t, t, t).unwrap();
    let mut cube = Cube::assemble(2, vec![c("0"), c("1"), c("0"), c("1")]).unwrap();
    assert!(cube.is_well_formed());
    cube.n_images = 2;
    assert!(!cube.is_well_formed());
    cube.n_images = 1;
    cube.size = 3;
    assert!(!cube.is_well_formed());
    cube.size = 0;
    assert!(!cube.is_well_formed());
    cube.size = 4;
    cube.n_images = 0;
    assert!(cube.is_well_formed());
}

#[test]
fn can_resample_bounds_both_sides() {
    assert!(Image::can_resample(32, 64));
    assert!(Image::can_resample(1, 0));
    assert!(Image::can_resample(65536, 2));
    assert!(!Image::can_resample(65537, 2));
    assert!(!Image::can_resample(2, 65537));
}
