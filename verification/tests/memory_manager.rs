use std::collections::HashMap;

use nilang::generator::assembly_flavour::{AssemblyInstruction, AssemblyInstructionParameter};
use nilang::generator::locations::Location;
use nilang::generator::memory_manager::{free_locations, swap, MemoryManager};
use nilang::generator::registers::NumberedRegisters as TestRegisters;

fn test_builtin_variables() -> [String; 1] {
    ["h_1".into()]
}

fn reservations(mm: &MemoryManager<TestRegisters>) -> HashMap<String, Location<TestRegisters>> {
    mm.reservations().into_iter().collect()
}

fn pop_greatest(v: &mut Vec<Location<TestRegisters>>) -> Option<Location<TestRegisters>> {
    if v.is_empty() {
        return None;
    }
    let mut best = 0;
    for i in 1..v.len() {
        if v[i] > v[best] {
            best = i;
        }
    }
    Some(v.remove(best))
}

#[test]
fn test_location_ord() {
    assert!(Location::Register(TestRegisters::R(0)) > Location::Register(TestRegisters::R(1)));
    assert!(Location::Register(TestRegisters::R(1)) > Location::Register(TestRegisters::R(2)));

    assert!(Location::Register(TestRegisters::R(0)) > Location::Stack(0));
    assert!(Location::Register(TestRegisters::R(2)) > Location::Stack(0));
    assert!(Location::Register(TestRegisters::R(0)) > Location::Stack(usize::MAX));
    assert!(Location::Register(TestRegisters::R(2)) > Location::Stack(usize::MAX));

    assert!(Location::<TestRegisters>::Stack(0) > Location::Stack(1));
    assert!(Location::<TestRegisters>::Stack(0) > Location::Stack(usize::MAX));
    assert!(Location::<TestRegisters>::Stack(usize::MAX - 1) > Location::Stack(usize::MAX));

    assert!(Location::Register(TestRegisters::R(0)) > Location::Hardcoded("a".into()));
    assert!(Location::Register(TestRegisters::R(2)) > Location::Hardcoded("a".into()));
    assert!(Location::<TestRegisters>::Stack(0) > Location::Hardcoded("a".into()));
    assert!(Location::<TestRegisters>::Stack(usize::MAX) > Location::Hardcoded("a".into()));

    let mut registers = vec![
        Location::Register(TestRegisters::R(2)),
        Location::Stack(0),
        Location::Register(TestRegisters::R(1)),
        Location::Hardcoded("a".into()),
        Location::Stack(1),
    ];

    assert_eq!(pop_greatest(&mut registers), Some(Location::Register(TestRegisters::R(1))));
    assert_eq!(pop_greatest(&mut registers), Some(Location::Register(TestRegisters::R(2))));
    assert_eq!(pop_greatest(&mut registers), Some(Location::Stack(0)));
    assert_eq!(pop_greatest(&mut registers), Some(Location::Stack(1)));
    assert_eq!(pop_greatest(&mut registers), Some(Location::Hardcoded("a".into())));
    assert_eq!(pop_greatest(&mut registers), None);
}

#[test]
fn test_reserve() {
    let mut mm = MemoryManager::new(&test_builtin_variables());
    mm.reserve("a").unwrap();
    mm.reserve("b").unwrap();
    mm.reserve("c").unwrap();

    assert_eq!(
        reservations(&mm),
        HashMap::from([
            ("h_1".into(), Location::Hardcoded("h_1".into())),
            ("a".into(), Location::Register(TestRegisters::R(0))),
            ("b".into(), Location::Register(TestRegisters::R(1))),
            ("c".into(), Location::Register(TestRegisters::R(2)))
        ])
    );

    assert_eq!(mm.pop_next_location(), None);

    let mut mm = MemoryManager::<TestRegisters>::default();
    mm.reserve("a").unwrap();
    mm.ensure_n_next_locations(5);
    mm.reserve("b").unwrap();

    assert_eq!(
        reservations(&mm),
        HashMap::from([
            ("h_1".into(), Location::Hardcoded("h_1".into())),
            ("a".into(), Location::Register(TestRegisters::R(0))),
            ("b".into(), Location::Register(TestRegisters::R(1)))
        ])
    );

    assert_eq!(mm.pop_next_location(), Some(Location::Register(TestRegisters::R(2))));
    assert_eq!(mm.pop_next_location(), Some(Location::Stack(0)));
    assert_eq!(mm.pop_next_location(), Some(Location::Stack(1)));
    assert_eq!(mm.pop_next_location(), Some(Location::Stack(2)));
    assert_eq!(mm.pop_next_location(), None);
}

#[test]
fn test_reserve_nth_free() {
    let mut mm = MemoryManager::<TestRegisters>::default();
    mm.reserve("a").unwrap();
    mm.reserve_nth_free("b", 4).unwrap();

    assert_eq!(
        reservations(&mm),
        HashMap::from([
            ("h_1".into(), Location::Hardcoded("h_1".into())),
            ("a".into(), Location::Register(TestRegisters::R(0))),
            ("b".into(), Location::Stack(1)),
        ])
    );

    assert_eq!(mm.pop_next_location(), Some(Location::Register(TestRegisters::R(1))));
    assert_eq!(mm.pop_next_location(), Some(Location::Register(TestRegisters::R(2))));
    assert_eq!(mm.pop_next_location(), Some(Location::Stack(0)));

    let mut mm = MemoryManager::<TestRegisters>::default();
    mm.reserve_nth_free("a", 1).unwrap();
    mm.reserve_nth_free("b", 2).unwrap();
    mm.reserve_nth_free("c", 1).unwrap();
    mm.reserve_nth_free("d", 3).unwrap();

    assert_eq!(
        reservations(&mm),
        HashMap::from([
            ("h_1".into(), Location::Hardcoded("h_1".into())),
            ("a".into(), Location::Register(TestRegisters::R(0))),
            ("b".into(), Location::Register(TestRegisters::R(2))),
            ("c".into(), Location::Register(TestRegisters::R(1))),
            ("d".into(), Location::Stack(2)),
        ])
    );

    assert_eq!(mm.pop_next_location(), Some(Location::Stack(0)));
    assert_eq!(mm.pop_next_location(), Some(Location::Stack(1)));
    assert_eq!(mm.pop_next_location(), None);
}

#[test]
fn test_free() {
    let mut mm = MemoryManager::<TestRegisters>::default();
    mm.reserve("a").unwrap();
    mm.reserve("b").unwrap();
    mm.reserve("c").unwrap();

    mm.free("b");

    assert_eq!(
        reservations(&mm),
        HashMap::from([
            ("h_1".into(), Location::Hardcoded("h_1".into())),
            ("a".into(), Location::Register(TestRegisters::R(0))),
            ("c".into(), Location::Register(TestRegisters::R(2)))
        ])
    );

    assert_eq!(mm.pop_next_location(), Some(Location::Register(TestRegisters::R(1))));
    assert_eq!(mm.pop_next_location(), None);

    let mut mm = MemoryManager::<TestRegisters>::default();
    mm.reserve("a").unwrap();
    mm.free("h_1");

    assert_eq!(
        reservations(&mm),
        HashMap::from([
            ("h_1".into(), Location::Hardcoded("h_1".into())),
            ("a".into(), Location::Register(TestRegisters::R(0)))
        ])
    );
    assert_eq!(mm.pop_next_location(), Some(Location::Register(TestRegisters::R(1))));
    assert_eq!(mm.pop_next_location(), Some(Location::Register(TestRegisters::R(2))));
    assert_eq!(mm.pop_next_location(), None);
}

#[test]
fn test_add_next_location() {
    let mut mm = MemoryManager::<TestRegisters>::default();
    mm.add_next_location();
    mm.add_next_location();

    assert_eq!(mm.pop_next_location(), Some(Location::Register(TestRegisters::R(0))));
    assert_eq!(mm.pop_next_location(), Some(Location::Register(TestRegisters::R(1))));
    assert_eq!(mm.pop_next_location(), Some(Location::Register(TestRegisters::R(2))));
    assert_eq!(mm.pop_next_location(), Some(Location::Stack(0)));
    assert_eq!(mm.pop_next_location(), Some(Location::Stack(1)));
    assert_eq!(mm.pop_next_location(), None);
}

#[test]
fn test_ensure_n_next_locations() {
    let mut mm = MemoryManager::<TestRegisters>::default();
    mm.ensure_n_next_locations(4);

    assert_eq!(mm.pop_next_location(), Some(Location::Register(TestRegisters::R(0))));
    assert_eq!(mm.pop_next_location(), Some(Location::Register(TestRegisters::R(1))));
    assert_eq!(mm.pop_next_location(), Some(Location::Register(TestRegisters::R(2))));
    assert_eq!(mm.pop_next_location(), Some(Location::Stack(0)));
    assert_eq!(mm.pop_next_location(), None);
}

#[test]
fn test_reserve_location() {
    let mut mm = MemoryManager::<TestRegisters>::default();
    mm.reserve_location("a", Location::Register(TestRegisters::R(0))).unwrap();

    assert_eq!(
        reservations(&mm),
        HashMap::from([
            ("h_1".into(), Location::Hardcoded("h_1".into())),
            ("a".into(), Location::Register(TestRegisters::R(0)))
        ])
    );
    assert_eq!(mm.pop_next_location(), Some(Location::Register(TestRegisters::R(1))));
    assert_eq!(mm.pop_next_location(), Some(Location::Register(TestRegisters::R(2))));
    assert_eq!(mm.pop_next_location(), None);
}

#[test]
fn test_get_location() {
    let mut mm = MemoryManager::<TestRegisters>::default();
    mm.reserve("a").unwrap();

    assert_eq!(mm.get_location("a"), Some(&Location::Register(TestRegisters::R(0))));
    assert_eq!(mm.get_location("b"), None);
}

#[test]
fn test_get_name() {
    let mut mm = MemoryManager::<TestRegisters>::default();
    mm.reserve("a").unwrap();

    assert_eq!(mm.get_name(&Location::Register(TestRegisters::R(0))), Some("a"));
    assert_eq!(mm.get_name(&Location::Register(TestRegisters::R(1))), None);
}

#[test]
fn test_is_location_taken() {
    let mut mm = MemoryManager::<TestRegisters>::default();
    mm.reserve("a").unwrap();
    mm.reserve_location("b", Location::Stack(0)).unwrap();

    assert!(mm.is_location_taken(&Location::Register(TestRegisters::R(0))));
    assert!(!mm.is_location_taken(&Location::Register(TestRegisters::R(1))));
    assert!(mm.is_location_taken(&Location::Stack(0)));
}

#[test]
fn test_is_name_taken() {
    let mut mm = MemoryManager::<TestRegisters>::default();
    mm.reserve("a").unwrap();
    mm.reserve_location("b", Location::Stack(0)).unwrap();

    assert!(mm.is_name_taken("a"));
    assert!(mm.is_name_taken("b"));
    assert!(!mm.is_name_taken("c"));
}

#[test]
fn test_free_locations() {
    let mut mm = MemoryManager::<TestRegisters>::default();
    mm.reserve("a").unwrap();
    mm.reserve("b").unwrap();
    mm.reserve("c").unwrap();
    mm.reserve("d").unwrap();

    assert_eq!(
        free_locations(
            &mut mm,
            &vec![
                Location::Register(TestRegisters::R(0)),
                Location::Register(TestRegisters::R(2)),
                Location::Stack(0),
                Location::Stack(4)
            ]
        )
        .unwrap(),
        [
            (
                AssemblyInstruction::Swap,
                vec![
                    AssemblyInstructionParameter::from_location(&Location::Register(TestRegisters::R(0))),
                    AssemblyInstructionParameter::from_location(&Location::Stack(1))
                ],
                "Swap a and @swap_temp_0".to_string()
            ),
            (
                AssemblyInstruction::Swap,
                vec![
                    AssemblyInstructionParameter::from_location(&Location::Register(TestRegisters::R(2))),
                    AssemblyInstructionParameter::from_location(&Location::Stack(2))
                ],
                "Swap c and @swap_temp_1".to_string()
            ),
            (
                AssemblyInstruction::Swap,
                vec![
                    AssemblyInstructionParameter::from_location(&Location::Stack(0)),
                    AssemblyInstructionParameter::from_location(&Location::Stack(3))
                ],
                "Swap d and @swap_temp_2".to_string()
            )
        ]
    );

    assert_eq!(
        reservations(&mm),
        HashMap::from([
            ("h_1".into(), Location::Hardcoded("h_1".into())),
            ("a".into(), Location::Stack(1)),
            ("b".into(), Location::Register(TestRegisters::R(1))),
            ("c".into(), Location::Stack(2)),
            ("d".into(), Location::Stack(3))
        ])
    );
}

#[test]
fn test_swap() {
    let mut mm = MemoryManager::<TestRegisters>::default();
    mm.reserve("a").unwrap();
    mm.reserve("b").unwrap();

    assert_eq!(
        swap(&mut mm, "a", "b").unwrap(),
        (
            AssemblyInstruction::Swap,
            vec![
                AssemblyInstructionParameter::from_location(&Location::Register(TestRegisters::R(0))),
                AssemblyInstructionParameter::from_location(&Location::Register(TestRegisters::R(1)))
            ],
            "Swap a and b".to_string()
        )
    );

    assert_eq!(
        reservations(&mm),
        HashMap::from([
            ("h_1".into(), Location::Hardcoded("h_1".into())),
            ("a".into(), Location::Register(TestRegisters::R(1))),
            ("b".into(), Location::Register(TestRegisters::R(0)))
        ])
    );
    assert_eq!(mm.pop_next_location(), Some(Location::Register(TestRegisters::R(2))));
    assert_eq!(mm.pop_next_location(), None);
}

#[test]
fn reserving_a_taken_name_is_refused() {
    let mut mm = MemoryManager::<TestRegisters>::default();
    mm.reserve("a").unwrap();
    let e = mm.reserve("a").unwrap_err();
    assert_eq!(e, nilang::errors::GeneratorErrors::VariableAlreadyExists { name: "a".into() });
    assert_eq!(mm.get_location("a"), Some(&Location::Register(TestRegisters::R(0))));
}

#[test]
fn reserve_then_free_gives_the_manager_back() {
    let mut mm = MemoryManager::<TestRegisters>::default();
    mm.reserve("a").unwrap();
    mm.free("a");
    assert!(!mm.is_name_taken("a"));
    assert_eq!(mm.pop_next_location(), Some(Location::Register(TestRegisters::R(0))));
    assert_eq!(mm.pop_next_location(), Some(Location::Register(TestRegisters::R(1))));
    assert_eq!(mm.pop_next_location(), Some(Location::Register(TestRegisters::R(2))));
    assert_eq!(mm.pop_next_location(), None);
}

#[test]
fn unknown_name_is_an_error() {
    let mm = MemoryManager::<TestRegisters>::default();
    assert_eq!(
        mm.get_location_or_err("x").unwrap_err(),
        nilang::errors::GeneratorErrors::VariableNotDefined { name: "x".into() }
    );
}

#[test]
fn hardcoded_names_keep_their_data() {
    let mm = MemoryManager::<TestRegisters>::new(&["s".to_string()]);
    assert_eq!(mm.get_location("s"), Some(&Location::Hardcoded("s".into())));
    assert_eq!(mm.get_name(&Location::Hardcoded("s".into())), Some("s"));
}

#[test]
fn free_locations_leaves_them_empty() {
    let mut mm = MemoryManager::<TestRegisters>::default();
    mm.reserve("a").unwrap();
    mm.reserve("b").unwrap();
    mm.reserve("c").unwrap();
    assert_eq!(mm.reserve("d").unwrap(), Location::Stack(0));
    let locations = vec![Location::Register(TestRegisters::R(1)), Location::Stack(0), Location::Register(TestRegisters::R(2))];
    free_locations(&mut mm, &locations).unwrap();
    for l in &locations {
        assert!(!mm.is_location_taken(l));
    }
    assert!(mm.is_name_taken("a") && mm.is_name_taken("b") && mm.is_name_taken("c") && mm.is_name_taken("d"));
}

#[test]
fn builtins_stay_at_their_data() {
    let mut mm = MemoryManager::<TestRegisters>::default();
    assert_eq!(mm.get_location("h_1"), Some(&Location::Hardcoded("h_1".into())));
    mm.reserve("a").unwrap();
    mm.free("h_1");
    assert!(swap(&mut mm, "h_1", "a").is_err());
    assert!(mm.reserve("h_1").is_err());
    assert!(mm.reserve_location("h_1", Location::Stack(7)).is_err());
    mm.ensure_n_next_locations(6);
    free_locations(&mut mm, &vec![Location::Register(TestRegisters::R(0)), Location::Hardcoded("h_1".into())]).unwrap();
    assert_eq!(mm.get_location("h_1"), Some(&Location::Hardcoded("h_1".into())));
    assert_eq!(mm.get_name(&Location::Hardcoded("h_1".into())), Some("h_1"));
}

#[test]
fn lookup_then_name_gives_the_name_back() {
    let mut mm = MemoryManager::<TestRegisters>::default();
    for name in ["a", "b", "c", "d", "e"] {
        mm.reserve(name).unwrap();
    }
    for name in ["h_1", "a", "b", "c", "d", "e"] {
        let l = mm.get_location_or_err(name).unwrap().clone();
        assert_eq!(mm.get_name(&l), Some(name));
    }
}
