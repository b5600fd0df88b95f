use miner_factory::registry::{default_firmware_registry, FirmwareFeatures, FirmwareKind};

#[test]
fn the_full_registry_is_in_order_of_priority() {
    assert_eq!(
        default_firmware_registry(&FirmwareFeatures::all()),
        vec![
            FirmwareKind::Braiins,
            FirmwareKind::LuxMiner,
            FirmwareKind::Marathon,
            FirmwareKind::Vnish,
            FirmwareKind::EPic,
            FirmwareKind::VolcMiner,
            FirmwareKind::Elphapex,
            FirmwareKind::FutureBit,
            FirmwareKind::WhatsMiner,
            FirmwareKind::AntMiner,
            FirmwareKind::SealMiner,
            FirmwareKind::AvalonMiner,
            FirmwareKind::Auradine,
            FirmwareKind::NerdAxe,
            FirmwareKind::Proto,
            FirmwareKind::Bitaxe,
        ]
    );
}

#[test]
fn firmwares_that_are_not_built_in_are_left_out() {
    let features = FirmwareFeatures { braiins: false, proto: false, ..FirmwareFeatures::all() };
    let registry = default_firmware_registry(&features);
    assert_eq!(registry.len(), 14);
    assert!(!registry.contains(&FirmwareKind::Braiins));
    assert!(!registry.contains(&FirmwareKind::Proto));
    assert_eq!(registry[0], FirmwareKind::LuxMiner);
    assert!(!features.is_supported(FirmwareKind::Proto));
    assert!(features.is_supported(FirmwareKind::Bitaxe));
}

#[test]
fn nerdaxe_is_asked_before_bitaxe() {
    let registry = default_firmware_registry(&FirmwareFeatures::all());
    let nerdaxe = registry.iter().position(|kind| *kind == FirmwareKind::NerdAxe).unwrap();
    let bitaxe = registry.iter().position(|kind| *kind == FirmwareKind::Bitaxe).unwrap();
    assert!(nerdaxe < bitaxe);
}

#[test]
fn replacement_firmwares_are_asked_before_stock_ones() {
    let replacements = [
        FirmwareKind::Braiins,
        FirmwareKind::LuxMiner,
        FirmwareKind::Marathon,
        FirmwareKind::Vnish,
        FirmwareKind::EPic,
    ];
    for epic in [true, false] {
        let features = FirmwareFeatures { epic, ..FirmwareFeatures::all() };
        let registry = default_firmware_registry(&features);
        let first_stock =
            registry.iter().position(|kind| !replacements.contains(kind)).unwrap();
        assert_eq!(first_stock, if epic { 5 } else { 4 });
        assert!(registry[first_stock..].iter().all(|kind| !replacements.contains(kind)));
    }
}
