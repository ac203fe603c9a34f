use esp_webdav::sd_card::{MountError, SdCard, ESP_OK};

#[test]
fn new_card_is_not_attached() {
    let card = SdCard::new("/vfat");
    assert_eq!(card.mount_point(), "/vfat");
    assert!(!card.attached());
}

#[test]
fn paths_with_a_zero_byte_are_not_accepted() {
    assert!(SdCard::accepts("/vfat"));
    assert!(SdCard::accepts(""));
    assert!(SdCard::accepts("/\u{20ac}"));
    assert!(!SdCard::accepts("/vf\0at"));
    assert!(!SdCard::accepts("\0"));
    assert!(!SdCard::accepts("/vfat\0"));
}

#[test]
fn success_status_is_zero() {
    assert_eq!(ESP_OK, 0);
}

#[test]
fn sdmmc_mount_stands_on_success_only() {
    let mut card = SdCard::new("/vfat");
    assert_eq!(card.mount_sdmmc(ESP_OK), Ok(()));
    assert!(!card.attached());
    assert_eq!(card.mount_sdmmc(-1), Err(MountError::Mount(-1)));
    assert_eq!(card.mount_sdmmc(0x107), Err(MountError::Mount(0x107)));
    assert!(!card.attached());
    assert_eq!(card.mount_point(), "/vfat");
}

#[test]
fn spi_mount_attaches_the_card() {
    let mut card = SdCard::new("/vfat");
    assert_eq!(card.mount_spi(ESP_OK, ESP_OK), Ok(()));
    assert!(card.attached());
    assert_eq!(card.mount_point(), "/vfat");
}

#[test]
fn spi_bus_failure_comes_first() {
    let mut card = SdCard::new("/vfat");
    assert_eq!(card.mount_spi(0x103, ESP_OK), Err(MountError::BusInit(0x103)));
    assert!(!card.attached());
    assert_eq!(card.mount_spi(0x103, -1), Err(MountError::BusInit(0x103)));
    assert!(!card.attached());
}

#[test]
fn spi_mount_failure_attaches_nothing() {
    let mut card = SdCard::new("/vfat");
    assert_eq!(card.mount_spi(ESP_OK, -1), Err(MountError::Mount(-1)));
    assert!(!card.attached());
}

#[test]
fn a_later_failure_keeps_the_attached_card() {
    let mut card = SdCard::new("/vfat");
    assert_eq!(card.mount_spi(ESP_OK, ESP_OK), Ok(()));
    assert_eq!(card.mount_spi(ESP_OK, 0x105), Err(MountError::Mount(0x105)));
    assert!(card.attached());
}
