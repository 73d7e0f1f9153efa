use span_wallpaper::arguments::{classify_argument, output_name_with_lowercase, output_parser, Token};

#[test]
fn empty_argument_is_black() {
    assert_eq!(classify_argument(""), Token::Color((0, 0, 0)));
}

#[test]
fn hex_colors_are_read() {
    assert_eq!(classify_argument("#FF0000"), Token::Color((255, 0, 0)));
    assert_eq!(classify_argument("#ff69b4"), Token::Color((0xff, 0x69, 0xb4)));
    assert_eq!(classify_argument("#F0A"), Token::Color((0xff, 0x00, 0xaa)));
    assert_eq!(classify_argument("#000000"), Token::Color((0, 0, 0)));
}

#[test]
fn other_arguments_are_paths() {
    assert_eq!(classify_argument("photo.png"), Token::Path);
    assert_eq!(classify_argument("#GG0000"), Token::Path);
    assert_eq!(classify_argument("#FF000080"), Token::Path);
}

#[test]
fn output_name_gets_jpg_extension() {
    assert_eq!(output_parser("wallpaper"), Ok("wallpaper.jpg".to_string()));
    assert_eq!(output_parser("shot.png"), Ok("shot.png.jpg".to_string()));
}

#[test]
fn output_name_keeps_jpeg_extension() {
    assert_eq!(output_parser("wallpaper.jpg"), Ok("wallpaper.jpg".to_string()));
    assert_eq!(output_parser("Wide.JPEG"), Ok("Wide.JPEG".to_string()));
    assert_eq!(output_parser("x.Jpg"), Ok("x.Jpg".to_string()));
}

#[test]
fn output_name_goes_by_given_lowercase() {
    assert_eq!(output_name_with_lowercase("A.JPG", "a.jpg"), "A.JPG");
    assert_eq!(output_name_with_lowercase("A.JPG", "a.png"), "A.JPG.jpg");
}
