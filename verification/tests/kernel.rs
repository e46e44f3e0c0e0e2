use vecadd::errors::VecAddError;
use vecadd::kernel::check_layout;
use vecadd::kernel::BindingKind;
use vecadd::kernel::KernelLayout;

fn fixed_layout(with_offset: bool) -> KernelLayout {
    let mut bindings = vec![
        BindingKind::ReadOnlyStorage,
        BindingKind::ReadOnlyStorage,
        BindingKind::ReadWriteStorage,
    ];
    if with_offset {
        bindings.push(BindingKind::OffsetUniform);
    }
    KernelLayout { bindings }
}

#[test]
fn fixed_layout_without_offset_uniform_is_accepted() {
    assert_eq!(check_layout(&fixed_layout(false), false), Ok(()));
}

#[test]
fn fixed_layout_with_offset_uniform_is_accepted() {
    assert_eq!(check_layout(&fixed_layout(true), false), Ok(()));
    assert_eq!(check_layout(&fixed_layout(true), true), Ok(()));
}

#[test]
fn missing_offset_uniform_is_a_layout_mismatch_when_needed() {
    assert_eq!(
        check_layout(&fixed_layout(false), true),
        Err(VecAddError::LayoutMismatch)
    );
}

#[test]
fn wrong_binding_kind_is_a_layout_mismatch() {
    let layout = KernelLayout {
        bindings: vec![
            BindingKind::ReadOnlyStorage,
            BindingKind::ReadWriteStorage,
            BindingKind::ReadWriteStorage,
        ],
    };
    assert_eq!(check_layout(&layout, false), Err(VecAddError::LayoutMismatch));
}

#[test]
fn wrong_binding_count_is_a_layout_mismatch() {
    let layout = KernelLayout {
        bindings: vec![BindingKind::ReadOnlyStorage, BindingKind::ReadOnlyStorage],
    };
    assert_eq!(check_layout(&layout, false), Err(VecAddError::LayoutMismatch));
}
