use ynz_typeck::owned_copy::{
    copy_is_independent, owned_copy_plan, spawn_arg_can_be_independent, spawn_rehoming,
    ElemCopy, HeapCell, OwnedCopy, SpawnRehoming,
};
use ynz_typeck::types::Type;

fn bx(t: Type) -> Box<Type> {
    Box::new(t)
}

/// One value of every `Type` variant (plus the interesting element-type combinations).
fn all_type_variants() -> Vec<Type> {
    vec![
        Type::Int,
        Type::Float,
        Type::Bool,
        Type::String,
        Type::Nothing,
        Type::Error,
        Type::Number { precision: 34 },
        Type::Number { precision: 60 },
        Type::Range { element: bx(Type::Int), end_inclusive: false },
        Type::Options { name: "Status".to_string() },
        Type::Shape { name: "Point".to_string() },
        Type::BuiltinFixed { elem: bx(Type::Int), size: Some(3) },
        Type::BuiltinFixed { elem: bx(Type::BuiltinArray { elem: bx(Type::Int) }), size: None },
        Type::BuiltinArray { elem: bx(Type::Int) },
        Type::BuiltinArray { elem: bx(Type::BuiltinChannel { elem: bx(Type::Int) }) },
        Type::BuiltinMap { key: bx(Type::String), val: bx(Type::Int) },
        Type::MapEntry { key: bx(Type::String), val: bx(Type::Int) },
        Type::Maybe { inner: bx(Type::Int) },
        Type::Maybe { inner: bx(Type::BuiltinArray { elem: bx(Type::Int) }) },
        Type::Sensitive { inner: bx(Type::String) },
        Type::Sensitive { inner: bx(Type::BuiltinArray { elem: bx(Type::Int) }) },
        Type::BuiltinChannel { elem: bx(Type::Int) },
        Type::BackgroundHandle { result: bx(Type::Int), msg_elem: None },
        Type::Dynamic { contract: "Drawable".to_string() },
        Type::Union { variants: vec![Type::Shape { name: "A".to_string() }, Type::Shape { name: "B".to_string() }] },
        Type::ErrorsCapable { inner: bx(Type::Int) },
        Type::TypeParam { name: "T".to_string() },
        Type::Generic { name: "Pair".to_string(), args: vec![Type::Int, Type::String] },
    ]
}

#[test]
fn every_type_variant_is_a_copy_or_a_refusal_and_never_a_silent_alias() {
    for ty in all_type_variants() {
        let plan = owned_copy_plan(&ty);
        let receiver_is_the_copy_is_sound = matches!(
            ty,
            Type::Int
                | Type::Float
                | Type::Bool
                | Type::String
                | Type::Options { .. }
                | Type::Number { .. }
                | Type::Range { .. }
                | Type::Sensitive { .. }
        );
        if matches!(
            plan,
            OwnedCopy::ReceiverIsCopy | OwnedCopy::FrameLocalImmutable { .. }
        ) {
            assert!(
                receiver_is_the_copy_is_sound,
                "{ty:?}: handing back the receiver is only a copy for contents nothing \
                 can change — this type is not one of those"
            );
        }
    }
}

#[test]
fn every_refusal_fills_all_three_teaching_slots() {
    for ty in all_type_variants() {
        if let OwnedCopy::Refused(r) = owned_copy_plan(&ty) {
            assert!(!r.fix.trim().is_empty(), "{ty:?}: empty WHAT-INSTEAD");
            assert!(!r.why.trim().is_empty(), "{ty:?}: empty WHY");
        }
    }
}

#[test]
fn a_conduit_and_a_task_handle_are_refusals_not_copies() {
    assert!(matches!(
        owned_copy_plan(&Type::BuiltinChannel {
            elem: Box::new(Type::Int)
        }),
        OwnedCopy::Refused(_)
    ));
    assert!(matches!(
        owned_copy_plan(&Type::BackgroundHandle {
            result: Box::new(Type::Int),
            msg_elem: None,
        }),
        OwnedCopy::Refused(_)
    ));
}

#[test]
fn an_array_of_arrays_copies_its_items_too() {
    assert_eq!(
        owned_copy_plan(&Type::BuiltinArray {
            elem: Box::new(Type::BuiltinArray {
                elem: Box::new(Type::Int)
            })
        }),
        OwnedCopy::ArrayClone {
            elem: ElemCopy::Nested
        }
    );
    assert_eq!(
        owned_copy_plan(&Type::BuiltinArray {
            elem: Box::new(Type::Int)
        }),
        OwnedCopy::ArrayClone {
            elem: ElemCopy::Inline
        }
    );
}

#[test]
fn a_fixed_list_of_ints_copies_and_pin_n_is_a_value_contract() {
    assert_eq!(
        owned_copy_plan(&Type::BuiltinFixed {
            elem: Box::new(Type::Int),
            size: Some(3),
        }),
        OwnedCopy::FixedMemcpy
    );
}

#[test]
fn number_is_frame_local_and_bignum_is_refused() {
    assert_eq!(
        owned_copy_plan(&Type::Number { precision: 34 }),
        OwnedCopy::FrameLocalImmutable { heap_cell: HeapCell::Number }
    );
    assert_eq!(
        owned_copy_plan(&Type::Range { element: Box::new(Type::Int), end_inclusive: true }),
        OwnedCopy::FrameLocalImmutable { heap_cell: HeapCell::Unavailable }
    );
    match owned_copy_plan(&Type::Number { precision: 35 }) {
        OwnedCopy::Refused(r) => {
            assert_eq!(r.detail, " with more than 34 digits of precision");
        }
        other => panic!("expected a refusal, got {other:?}"),
    }
}

#[test]
fn channel_refusal_names_the_element_type() {
    match owned_copy_plan(&Type::BuiltinChannel { elem: Box::new(Type::String) }) {
        OwnedCopy::Refused(r) => {
            assert!(r.fix.contains("`let replies: channel<string> = channel<string>()`."));
        }
        other => panic!("expected a refusal, got {other:?}"),
    }
}

#[test]
fn array_of_channels_refuses_because_of_its_items() {
    match owned_copy_plan(&Type::BuiltinArray {
        elem: Box::new(Type::BuiltinChannel { elem: Box::new(Type::Int) }),
    }) {
        OwnedCopy::Refused(r) => {
            assert_eq!(
                r.detail,
                ", because its items are `channel<int>` values and a `channel<int>` cannot be copied"
            );
            assert!(r.fix.starts_with("Build a new `array<channel<int>>`"));
        }
        other => panic!("expected a refusal, got {other:?}"),
    }
}

#[test]
fn maybe_and_sensitive_follow_their_inner_type() {
    assert_eq!(owned_copy_plan(&Type::Maybe { inner: Box::new(Type::Shape { name: "P".into() }) }), OwnedCopy::MaybeCellClone);
    assert!(matches!(
        owned_copy_plan(&Type::Maybe { inner: Box::new(Type::BuiltinMap { key: Box::new(Type::Int), val: Box::new(Type::Int) }) }),
        OwnedCopy::Refused(_)
    ));
    assert_eq!(owned_copy_plan(&Type::Sensitive { inner: Box::new(Type::String) }), OwnedCopy::ReceiverIsCopy);
    assert_eq!(owned_copy_plan(&Type::BuiltinMap { key: Box::new(Type::Int), val: Box::new(Type::Int) }), OwnedCopy::MapClone);
    assert_eq!(owned_copy_plan(&Type::Shape { name: "P".into() }), OwnedCopy::ShapeMemcpy);
}

#[test]
fn fixed_of_arrays_is_refused() {
    assert!(matches!(
        owned_copy_plan(&Type::BuiltinFixed {
            elem: Box::new(Type::BuiltinArray { elem: Box::new(Type::Int) }),
            size: Some(2),
        }),
        OwnedCopy::Refused(_)
    ));
}

#[test]
fn spawn_rehoming_and_independence() {
    assert_eq!(spawn_rehoming(&Type::BuiltinChannel { elem: Box::new(Type::Int) }), Some(SpawnRehoming::ShareChannel));
    assert_eq!(spawn_rehoming(&Type::MapEntry { key: Box::new(Type::Int), val: Box::new(Type::Int) }), Some(SpawnRehoming::StabilizeLoopView));
    assert_eq!(spawn_rehoming(&Type::Number { precision: 34 }), Some(SpawnRehoming::DecimalCell));
    assert_eq!(spawn_rehoming(&Type::Number { precision: 40 }), None);
    assert_eq!(spawn_rehoming(&Type::Int), None);
    // A channel cannot be copied but is re-homed by sharing.
    assert!(!copy_is_independent(&Type::BuiltinChannel { elem: Box::new(Type::Int) }));
    assert!(spawn_arg_can_be_independent(&Type::BuiltinChannel { elem: Box::new(Type::Int) }));
    // A task handle is neither copyable nor re-homed.
    let h = Type::BackgroundHandle { result: Box::new(Type::Int), msg_elem: None };
    assert!(!copy_is_independent(&h));
    assert!(!spawn_arg_can_be_independent(&h));
    assert!(copy_is_independent(&Type::BuiltinArray { elem: Box::new(Type::Int) }));
}
