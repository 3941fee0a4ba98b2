use image_converter::convert::{AsciiPixelConverter, PaletteError, PixelConverter};
use image_converter::palette::{default_palette, palette_from_tokens};
use image_converter::picture::{load_raster, target_size};
use image_converter::pipeline::{process_image, ImageProcessor, RasterImage};
use image_converter::stream::{console_piece, ConsoleStream, ImageFileStream, OutputImageStream};
use image_converter::{intensity, safe_extract};

const WHITE: [u8; 4] = [255, 255, 255, 255];
const BLACK: [u8; 4] = [0, 0, 0, 255];

fn converter(palette: &[char]) -> AsciiPixelConverter {
    AsciiPixelConverter::new(palette.to_vec()).unwrap()
}

fn render(img: &RasterImage, palette: &[char]) -> String {
    let conv = converter(palette);
    let mut sink = ImageFileStream::new(img.width(), img.height());
    process_image(&mut sink, img, &conv);
    sink.contents().iter().collect()
}

fn gradient(width: u32, height: u32) -> RasterImage {
    let mut pixels = Vec::new();
    for y in 0..height {
        for x in 0..width {
            let v = ((x * 37 + y * 91) % 256) as u8;
            pixels.push([v, v / 2, 255 - v, (x % 256) as u8]);
        }
    }
    RasterImage::new(width, height, pixels).unwrap()
}

#[test]
fn two_by_two_scenario() {
    let img = RasterImage::new(2, 2, vec![WHITE, BLACK, BLACK, WHITE]).unwrap();
    assert_eq!(render(&img, &['#', '.']), ".#\n#.");
}

#[test]
fn single_char_palette_fills_grid() {
    let img = gradient(3, 2);
    assert_eq!(render(&img, &['x']), "xxx\nxxx");
}

#[test]
fn single_char_palette_ignores_intensity() {
    let conv = converter(&['x']);
    for p in [WHITE, BLACK, [17, 200, 3, 0], [1, 2, 3, 4]] {
        assert_eq!(conv.convert(p), 'x');
    }
}

#[test]
fn empty_palette_is_refused() {
    assert_eq!(AsciiPixelConverter::new(Vec::new()).err(), Some(PaletteError::Empty));
}

#[test]
fn intensity_is_truncated_mean() {
    assert_eq!(intensity([10, 20, 31, 0]), 20);
    assert_eq!(intensity([1, 1, 0, 0]), 0);
    assert_eq!(intensity([255, 255, 255, 0]), 255);
    assert_eq!(intensity([0, 0, 0, 255]), 0);
}

#[test]
fn intensity_ignores_alpha() {
    assert_eq!(intensity([1, 2, 3, 0]), intensity([1, 2, 3, 255]));
    assert_eq!(intensity([1, 2, 3, 0]), 2);
}

#[test]
fn convert_wraps_intensity_round_palette() {
    let conv = converter(&['a', 'b', 'c']);
    // intensity 100, 100 % 3 == 1
    assert_eq!(conv.convert([100, 100, 100, 7]), 'b');
    // intensity 255, 255 % 3 == 0
    assert_eq!(conv.convert(WHITE), 'a');
    assert_eq!(conv.palette_len(), 3);
}

#[test]
fn safe_extract_wraps_index() {
    let data = vec!['a', 'b', 'c'];
    assert_eq!(safe_extract(&data, 4), 'b');
    assert_eq!(safe_extract(&data, 2), 'c');
}

#[test]
fn separators_are_height_minus_one() {
    let img = gradient(4, 3);
    let text = render(&img, &['a', 'b', 'c', 'd']);
    assert_eq!(text.matches('\n').count(), 2);
    let single = gradient(5, 1);
    assert_eq!(render(&single, &['a', 'b']).matches('\n').count(), 0);
}

#[test]
fn each_row_holds_width_chars() {
    let img = gradient(5, 4);
    let text = render(&img, &['a', 'b', 'c']);
    let rows: Vec<&str> = text.split('\n').collect();
    assert_eq!(rows.len(), 4);
    for row in rows {
        assert_eq!(row.chars().count(), 5);
    }
    assert!(!text.ends_with('\n'));
}

#[test]
fn two_runs_give_same_text() {
    let img = gradient(6, 3);
    let palette = default_palette();
    assert_eq!(render(&img, &palette), render(&img, &palette));
}

#[test]
fn zero_area_gives_no_text() {
    let empty_rows = RasterImage::new(0, 3, Vec::new()).unwrap();
    assert_eq!(render(&empty_rows, &['a']), "");
    let empty_cols = RasterImage::new(4, 0, Vec::new()).unwrap();
    assert_eq!(render(&empty_cols, &['a']), "");
    let conv = converter(&['a']);
    let mut console = ConsoleStream::new(0, 3);
    process_image(&mut console, &empty_rows, &conv);
}

#[test]
fn console_sink_runs_whole_image() {
    let img = gradient(3, 2);
    let conv = converter(&['a', 'b']);
    let mut console = ConsoleStream::new(3, 2);
    process_image(&mut console, &img, &conv);
}

#[test]
fn raster_checks_pixel_count() {
    assert!(RasterImage::new(2, 2, vec![WHITE, BLACK, BLACK]).is_none());
    let img = RasterImage::new(2, 1, vec![WHITE, BLACK]).unwrap();
    assert_eq!(img.pixel(1, 0), BLACK);
}

#[test]
fn raster_from_rgba_bytes() {
    let bytes = vec![1, 2, 3, 4, 5, 6, 7, 8];
    let img = RasterImage::from_rgba(2, 1, &bytes).unwrap();
    assert_eq!(img.pixel(0, 0), [1, 2, 3, 4]);
    assert_eq!(img.pixel(1, 0), [5, 6, 7, 8]);
    assert!(RasterImage::from_rgba(2, 2, &bytes).is_none());
    assert!(RasterImage::from_rgba(1, 1, &vec![1, 2, 3]).is_none());
}

#[test]
fn palette_from_tokens_takes_first_chars() {
    let tokens = vec!["ab".to_string(), String::new(), "c".to_string(), "é!".to_string()];
    assert_eq!(palette_from_tokens(&tokens), vec!['a', 'c', 'é']);
    assert!(palette_from_tokens(&vec![String::new()]).is_empty());
}

#[test]
fn default_palette_has_twenty_nine_chars() {
    let palette = default_palette();
    assert_eq!(palette.len(), 29);
    assert_eq!(palette[0], '#');
    assert_eq!(palette[28], '|');
}

#[test]
fn target_size_falls_back_to_native() {
    assert_eq!(target_size(0, 7), 7);
    assert_eq!(target_size(3, 7), 3);
}

#[test]
fn load_raster_reads_rgba_pixels() {
    let buf = image::RgbImage::from_pixel(4, 2, image::Rgb([255, 0, 0]));
    let img = image::DynamicImage::ImageRgb8(buf);
    let raster = load_raster(&img, 0, 0);
    assert_eq!(raster.width(), 4);
    assert_eq!(raster.height(), 2);
    assert_eq!(raster.pixel(3, 1), [255, 0, 0, 255]);
    // intensity 85 over a palette of two: index 1
    let text = render(&raster, &['a', 'b']);
    assert_eq!(text, "bbbb\nbbbb");
}

#[test]
fn load_raster_scales_to_requested_size() {
    let buf = image::RgbImage::from_pixel(4, 2, image::Rgb([10, 10, 10]));
    let img = image::DynamicImage::ImageRgb8(buf);
    let raster = load_raster(&img, 2, 1);
    assert_eq!(raster.width(), 2);
    assert_eq!(raster.height(), 1);
}

#[test]
fn sink_method_matches_free_function() {
    let img = gradient(4, 2);
    let conv = converter(&['a', 'b', 'c']);
    let mut sink = ImageFileStream::new(4, 2);
    sink.process_image(&img, &conv);
    let text: String = sink.contents().iter().collect();
    assert_eq!(text, render(&img, &['a', 'b', 'c']));
}

#[test]
fn console_piece_breaks_line_only_between_rows() {
    assert_eq!(console_piece(false, 0, '.'), vec!['.']);
    assert_eq!(console_piece(true, 0, '.'), vec!['\n', '.']);
    assert_eq!(console_piece(true, 3, '.'), vec!['.']);
}
