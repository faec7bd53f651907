use longfred_proto::image::{validate_esp32c6_app_image, ImageError, CHIP_ID_OFF, ESP32C6_CHIP_ID, ESP_IMAGE_HEADER_LEN, ESP_IMAGE_MAGIC};

fn header(magic: u8, chip: u16) -> [u8; ESP_IMAGE_HEADER_LEN] {
    let mut h = [0u8; ESP_IMAGE_HEADER_LEN];
    h[0] = magic;
    let b = chip.to_le_bytes();
    h[CHIP_ID_OFF] = b[0];
    h[CHIP_ID_OFF + 1] = b[1];
    h
}

#[test]
fn accepts_c6_app_header() {
    let h = header(ESP_IMAGE_MAGIC, ESP32C6_CHIP_ID);
    assert_eq!(validate_esp32c6_app_image(&h, 4096, 0x3C0000), Ok(()));
}

#[test]
fn rejects_wrong_magic() {
    let h = header(0x00, ESP32C6_CHIP_ID);
    assert_eq!(validate_esp32c6_app_image(&h, 4096, 0x3C0000), Err(ImageError::BadMagic));
}

#[test]
fn rejects_wrong_chip() {
    let h = header(ESP_IMAGE_MAGIC, 0x0005);
    assert_eq!(validate_esp32c6_app_image(&h, 4096, 0x3C0000), Err(ImageError::WrongChip));
}

#[test]
fn rejects_oversized() {
    let h = header(ESP_IMAGE_MAGIC, ESP32C6_CHIP_ID);
    assert_eq!(validate_esp32c6_app_image(&h, 0x3C0001, 0x3C0000), Err(ImageError::TooLarge));
}

#[test]
fn rejects_truncated_prefix() {
    let h = header(ESP_IMAGE_MAGIC, ESP32C6_CHIP_ID);
    assert_eq!(validate_esp32c6_app_image(&h[..8], 4096, 0x3C0000), Err(ImageError::Truncated));
}

#[test]
fn rejects_too_small_before_anything_else() {
    assert_eq!(validate_esp32c6_app_image(&[], 23, 0x3C0000), Err(ImageError::TooSmall));
    let h = header(ESP_IMAGE_MAGIC, ESP32C6_CHIP_ID);
    assert_eq!(validate_esp32c6_app_image(&h, 24, 24), Ok(()));
}
