use react_wasm::flags::{
    get_host_effect_mask, get_mutation_mask, get_passive_mask, unwind_suspense_flags, Flags,
};

#[test]
fn masks() {
    assert_eq!(get_mutation_mask().bits(), 0x7);
    assert_eq!(get_passive_mask().bits(), 0xC);
    assert_eq!(get_host_effect_mask().bits(), 0x5F);
    assert!(get_host_effect_mask().contains(&get_mutation_mask()));
    assert!(get_host_effect_mask().contains(&get_passive_mask()));
}

#[test]
fn flag_constants_and_operations() {
    assert_eq!(Flags::no_flags().bits(), 0);
    assert_eq!(Flags::placement().bits(), 0x1);
    assert_eq!(Flags::update().bits(), 0x2);
    assert_eq!(Flags::child_deletion().bits(), 0x4);
    assert_eq!(Flags::passive_effect().bits(), 0x8);
    assert_eq!(Flags::ref_flag().bits(), 0x10);
    assert_eq!(Flags::visibility().bits(), 0x20);
    assert_eq!(Flags::did_capture().bits(), 0x40);
    assert_eq!(Flags::should_capture().bits(), 0x1000);
    let f = Flags::placement().union(&Flags::update());
    assert_eq!(f.bits(), 3);
    assert!(f.intersects(&Flags::update()));
    assert!(!f.intersects(&Flags::ref_flag()));
    assert_eq!(f.difference(&Flags::placement()), Flags::update());
    assert_eq!(f.intersection(&Flags::update()), Flags::update());
    assert_eq!(Flags::from_bits_truncate(0xFFFF).bits(), 0x107F);
}

#[test]
fn unwind_turns_should_capture_into_did_capture() {
    let flags = Flags::should_capture().union(&Flags::placement());
    let r = unwind_suspense_flags(flags).unwrap();
    assert_eq!(r.bits(), 0x41);
    assert_eq!(unwind_suspense_flags(Flags::placement()), None);
    let both = Flags::should_capture().union(&Flags::did_capture());
    assert_eq!(unwind_suspense_flags(both), None);
}
