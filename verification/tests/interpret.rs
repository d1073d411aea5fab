//! The profile of an interpretable KAN.

use transformer::interpret::{
    resolve, InterpretError, InterpretOverrides, InterpretProfile, INTERPRET_PROFILE_VERSION,
};
use transformer::single::Single;

fn s(v: f32) -> Single {
    Single { bits: v.to_bits() }
}

fn described(p: &InterpretProfile) -> String {
    let prune = match p.prune {
        Some(v) => format!("{}", f32::from_bits(v.bits)),
        None => String::new(),
    };
    p.describe(&format!("{}", f32::from_bits(p.l1.bits)), &prune)
}

#[test]
fn nothing_requested_means_no_pipeline() {
    assert_eq!(resolve(false, &InterpretOverrides::default()).unwrap(), None);
}

#[test]
fn profile_alone_gives_the_documented_pipeline() {
    let p = resolve(true, &InterpretOverrides::default()).unwrap().expect("профиль запрошен");
    assert_eq!(p, InterpretProfile::v1());
    assert_eq!(p.version, INTERPRET_PROFILE_VERSION);
    assert!(p.prune.is_some() && p.compact);
    let text = described(&p);
    assert!(text.contains("v1"), "{text}");
    assert!(text.contains("0.001"), "{text}");
    assert!(text.contains("20 эпох"), "{text}");
    assert_eq!(text, "v1: L1 0.001, prune 0.05, fine-tune 20 эпох, структурное сжатие");
}

#[test]
fn explicit_flags_override_the_profile() {
    let p = resolve(
        true,
        &InterpretOverrides {
            prune: Some(s(0.2)),
            compact: Some(false),
            ..Default::default()
        },
    )
    .unwrap()
    .unwrap();
    assert_eq!(p.prune, Some(s(0.2)));
    assert!(!p.compact);
    assert_eq!(p.l1, InterpretProfile::v1().l1);
    assert_eq!(p.finetune_epochs, InterpretProfile::v1().finetune_epochs);
}

#[test]
fn flags_without_profile_build_only_what_was_asked() {
    let only_l1 = resolve(
        false,
        &InterpretOverrides { l1: Some(s(1e-4)), ..Default::default() },
    )
    .unwrap()
    .unwrap();
    assert_eq!(only_l1.l1, s(1e-4));
    assert_eq!(only_l1.prune, None);
    assert!(!only_l1.compact);
    assert_eq!(described(&only_l1), "v1: L1 0.0001, без прунинга");
}

#[test]
fn finetune_without_prune_is_an_error() {
    let err = resolve(
        false,
        &InterpretOverrides { finetune_epochs: Some(5), ..Default::default() },
    )
    .unwrap_err();
    assert!(err.message().contains("prune"), "{}", err.message());
}

#[test]
fn invalid_values_are_rejected() {
    assert!(InterpretProfile { version: 99, ..InterpretProfile::v1() }.validate().is_err());

    let bad_l1 = resolve(
        false,
        &InterpretOverrides { l1: Some(s(-1.0)), ..Default::default() },
    );
    assert!(bad_l1.is_err());

    for prune in [-0.1, 1.0, f32::NAN] {
        assert!(
            resolve(
                false,
                &InterpretOverrides { prune: Some(s(prune)), ..Default::default() }
            )
            .is_err(),
            "порог {prune} должен отвергаться"
        );
    }

    assert!(resolve(
        true,
        &InterpretOverrides { finetune_epochs: Some(0), ..Default::default() }
    )
    .is_err());
}

#[test]
fn refusals_are_explained() {
    assert_eq!(
        InterpretError::Version { found: 99 }.message(),
        "версия профиля 99 не поддерживается (ожидалась 1)"
    );
    assert_eq!(InterpretError::L1.message(), "l1 должен быть конечным и >= 0");
    assert_eq!(
        InterpretError::Prune.message(),
        "prune (отн. порог важности) должен быть в [0, 1)"
    );
    assert_eq!(InterpretError::NoFinetune.message(), "finetune-epochs должен быть >= 1");
    assert_eq!(
        InterpretError::FinetuneWithoutPrune.message(),
        "finetune-epochs имеет смысл только вместе с prune"
    );
}

#[test]
fn pruning_that_is_switched_off_stays_off() {
    let mut overrides = InterpretOverrides {
        finetune_epochs: Some(7),
        ..Default::default()
    };
    overrides.switch_prune(false);
    assert!(!overrides.is_empty());
    let p = resolve(true, &overrides).unwrap().unwrap();
    assert_eq!(p.prune, None);
    assert_eq!(p.finetune_epochs, 20);
    overrides.switch_prune(true);
    assert_eq!(resolve(true, &overrides).unwrap().unwrap().prune, Some(s(0.05)));
}
