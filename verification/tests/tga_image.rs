use renderer::color::Color32;
use renderer::tga::TGAFile;

#[test]
fn new_tgafile_height_and_width_are_correct() {
    let tga_file = TGAFile::new(10, 10);

    assert_eq!(tga_file.get_width(), 10);
    assert_eq!(tga_file.get_height(), 10);
}

#[test]
fn setting_y_value_greater_than_height_fails() -> Result<(), String> {
    let mut tga_file = TGAFile::new(10, 10);

    let color = Color32::new(0, 0, 0, 255);

    let result = tga_file.set(1, 11, &color);

    if result.is_err() {
        let error = result.err().unwrap();

        assert!(error.contains("Invalid y value 11"), "Assertion failed. Got: {}", error);

        Ok(())
    } else {
        Err(String::from(
            "Expected to get an error when the y value is greater than the image height",
        ))
    }
}

#[test]
fn setting_x_value_greater_than_width_fails() -> Result<(), String> {
    let mut tga_file = TGAFile::new(10, 10);

    let color = Color32::new(0, 0, 0, 255);

    let result = tga_file.set(11, 1, &color);

    if result.is_err() {
        let error = result.err().unwrap();

        assert!(error.contains("Invalid x value 11"), "Assertion failed. Got: {}", error);

        Ok(())
    } else {
        Err(String::from(
            "Expected to get an error when the x value is greater than the image width",
        ))
    }
}

#[test]
fn setting_x_value_of_zero_fails() -> Result<(), String> {
    let mut tga_file = TGAFile::new(10, 10);

    let color = Color32::new(0, 0, 0, 255);

    let result = tga_file.set(0, 1, &color);

    assert!(result.is_ok(), "Assertion failed. Got: {:?}", result);
    assert_eq!(tga_file.get(0, 1), Ok(color));

    result
}

#[test]
fn setting_y_value_of_zero_fails() -> Result<(), String> {
    let mut tga_file = TGAFile::new(10, 10);

    let color = Color32::new(0, 0, 0, 255);

    let result = tga_file.set(1, 0, &color);

    assert!(result.is_ok(), "Assertion failed. Got: {:?}", result);
    assert_eq!(tga_file.get(1, 0), Ok(color));

    result
}
