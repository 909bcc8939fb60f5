use image_cipher::output_file_name;

#[test]
fn prefix_and_extension_added() {
    assert_eq!(output_file_name("x.png"), "encoded-x.png");
    assert_eq!(output_file_name("photo.jpeg"), "encoded-photo.png");
    assert_eq!(output_file_name("noext"), "encoded-noext.png");
    assert_eq!(output_file_name("a.b.c"), "encoded-a.b.png");
}

#[test]
fn encoded_name_is_kept() {
    assert_eq!(output_file_name("encoded-x.png"), "encoded-x.png");
    assert_eq!(output_file_name("encoded-x.jpg"), "encoded-x.png");
    let once = output_file_name("pic.bmp");
    assert_eq!(output_file_name(&once), once);
}
