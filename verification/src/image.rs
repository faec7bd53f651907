//! ESP-IDF application image header checks.

use vstd::prelude::*;

verus! {

/// ESP-IDF app image magic (`esp_image_header_t.magic`).
pub const ESP_IMAGE_MAGIC: u8 = 0xE9;

/// ESP32-C6 chip id in the app image header (`chip_id`, little-endian).
pub const ESP32C6_CHIP_ID: u16 = 0x000D;

/// Size of `esp_image_header_t`.
pub const ESP_IMAGE_HEADER_LEN: usize = 24;

/// Offset of `chip_id` in the app image header.
pub const CHIP_ID_OFF: usize = 12;

/// Why an uploaded image was rejected.
#[derive(Clone, Copy, Debug, PartialEq, Eq, Structural)]
pub enum ImageError {
    /// Fewer than [`ESP_IMAGE_HEADER_LEN`] bytes.
    Truncated,
    /// Magic byte is not [`ESP_IMAGE_MAGIC`].
    BadMagic,
    /// `chip_id` is not ESP32-C6.
    WrongChip,
    /// Declared length is smaller than the header.
    TooSmall,
    /// Declared length exceeds the inactive OTA slot.
    TooLarge,
}

/// The checks in order: declared length at least a header, declared length within the
/// slot, a whole header present, the magic byte, the ESP32-C6 chip id.
pub open spec fn image_check(prefix: Seq<u8>, content_len: nat, slot_len: nat) -> Result<(), ImageError> {
    if content_len < ESP_IMAGE_HEADER_LEN {
        Err(ImageError::TooSmall)
    } else if content_len > slot_len {
        Err(ImageError::TooLarge)
    } else if prefix.len() < ESP_IMAGE_HEADER_LEN {
        Err(ImageError::Truncated)
    } else if prefix[0] != ESP_IMAGE_MAGIC {
        Err(ImageError::BadMagic)
    } else if prefix[12] as int + prefix[13] as int * 256 != ESP32C6_CHIP_ID {
        Err(ImageError::WrongChip)
    } else {
        Ok(())
    }
}

/// Validates an ESP32-C6 app image (not a merged flash dump).
pub fn validate_esp32c6_app_image(prefix: &[u8], content_len: usize, slot_len: usize) -> (r: Result<(), ImageError>)
    ensures
        r == image_check(prefix@, content_len as nat, slot_len as nat),
{
    if content_len < ESP_IMAGE_HEADER_LEN {
        return Err(ImageError::TooSmall);
    }
    if content_len > slot_len {
        return Err(ImageError::TooLarge);
    }
    if prefix.len() < ESP_IMAGE_HEADER_LEN {
        return Err(ImageError::Truncated);
    }
    if prefix[0] != ESP_IMAGE_MAGIC {
        return Err(ImageError::BadMagic);
    }
    let chip: u16 = (prefix[CHIP_ID_OFF] as u16) + (prefix[CHIP_ID_OFF + 1] as u16) * 256;
    if chip != ESP32C6_CHIP_ID {
        return Err(ImageError::WrongChip);
    }
    Ok(())
}

} // verus!
