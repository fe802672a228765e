use model_runner::error::AuthError;
use model_runner::permission::{
    Permission, ALL_PERMISSION_BITS, CREATE_SELF, DELETE_SELF, STATUS_OTHER, UPDATE_OTHER,
    USE_SELF,
};

fn perm(bits: u64) -> Permission {
    Permission::from_bits(bits).unwrap()
}

#[test]
fn roundtrip_empty_set() {
    let p = Permission::empty();
    assert_eq!(p.to_string(), "");
    let q = Permission::from_string("").unwrap();
    assert_eq!(q.bits(), 0);
}

#[test]
fn roundtrip_full_set() {
    let p = perm(ALL_PERMISSION_BITS);
    let s = p.to_string();
    assert_eq!(
        s,
        "USE_SELF | USE_OTHER | STATUS_SELF | STATUS_OTHER | CREATE_SELF | CREATE_OTHER | DELETE_SELF | DELETE_OTHER | UPDATE_SELF | UPDATE_OTHER"
    );
    let q = Permission::from_string(&s).unwrap();
    assert_eq!(q.bits(), ALL_PERMISSION_BITS);
}

#[test]
fn roundtrip_every_constructible_value() {
    let mut bits: u64 = 0;
    while bits <= ALL_PERMISSION_BITS {
        let p = perm(bits);
        let s = p.to_string();
        let q = Permission::from_string(&s).unwrap();
        assert_eq!(q.bits(), bits);
        bits += 1;
    }
}

#[test]
fn to_string_two_flags() {
    let p = perm(USE_SELF | STATUS_OTHER);
    assert_eq!(p.to_string(), "USE_SELF | STATUS_OTHER");
}

#[test]
fn from_string_tolerates_padding_spaces() {
    let p = Permission::from_string("  USE_SELF |STATUS_OTHER  ").unwrap();
    assert_eq!(p.bits(), USE_SELF | STATUS_OTHER);
    let blank = Permission::from_string("   ").unwrap();
    assert_eq!(blank.bits(), 0);
}

#[test]
fn from_string_rejects_unknown_names() {
    assert!(Permission::from_string("USE_EVERYTHING").is_none());
    assert!(Permission::from_string("USE_SELF | BOGUS").is_none());
    assert!(Permission::from_string("USE_SELF || STATUS_OTHER").is_none());
    assert!(Permission::from_string("|").is_none());
    assert!(Permission::from_string("use_self").is_none());
}

#[test]
fn from_bits_fails_closed_on_unknown_bits() {
    assert!(Permission::from_bits(0x400).is_none());
    assert!(Permission::from_bits(u64::MAX).is_none());
    assert!(Permission::from_bits(ALL_PERMISSION_BITS).is_some());
    assert!(Permission::from_bits(0).is_some());
}

#[test]
fn stored_bits_fail_closed_as_corrupt_data() {
    assert_eq!(
        Permission::from_stored_bits(0x400).err(),
        Some(AuthError::CorruptPermissionData)
    );
    assert_eq!(
        Permission::from_stored_bits(u64::MAX).err(),
        Some(AuthError::CorruptPermissionData)
    );
    assert_eq!(
        Permission::from_stored_bits(USE_SELF | DELETE_SELF).unwrap().bits(),
        USE_SELF | DELETE_SELF
    );
}

#[test]
fn contains_checks_every_required_bit() {
    let p = perm(USE_SELF | CREATE_SELF | DELETE_SELF);
    assert!(p.contains(&perm(USE_SELF)));
    assert!(p.contains(&perm(USE_SELF | DELETE_SELF)));
    assert!(!p.contains(&perm(STATUS_OTHER)));
    assert!(!p.contains(&perm(USE_SELF | STATUS_OTHER)));
    assert!(p.contains(&Permission::empty()));
    assert!(p.contains_bits(CREATE_SELF));
    assert!(!p.contains_bits(UPDATE_OTHER));
}

#[test]
fn union_joins_bit_sets() {
    let p = perm(USE_SELF).union(perm(STATUS_OTHER)).union(perm(USE_SELF));
    assert_eq!(p.bits(), USE_SELF | STATUS_OTHER);
}
