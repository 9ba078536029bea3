use rendergraph::descriptor::{
    DescriptorAllocator, DescriptorType, ResourceView, SetLayout,
};
use rendergraph::error::RenderError;
use rendergraph::resource::Device;

fn three_binding_layout() -> SetLayout {
    SetLayout::new(vec![
        DescriptorType::UniformBuffer,
        DescriptorType::SampledImage,
        DescriptorType::Sampler,
    ])
}

#[test]
fn writing_all_three_bindings_allows_binding() {
    let allocator = DescriptorAllocator::new(three_binding_layout());
    let mut set = allocator.allocate(&three_binding_layout()).unwrap();
    set.write(0, ResourceView::Buffer { offset: 0, len: 64 }).unwrap();
    set.write(1, ResourceView::Image { width: 2, height: 2 }).unwrap();
    set.write(2, ResourceView::Sampler).unwrap();
    assert!(set.bind_check().is_ok());
}

#[test]
fn binding_with_a_missing_write_fails_incomplete() {
    let allocator = DescriptorAllocator::new(three_binding_layout());
    let mut set = allocator.allocate(&three_binding_layout()).unwrap();
    set.write(0, ResourceView::Buffer { offset: 0, len: 64 }).unwrap();
    set.write(1, ResourceView::Image { width: 2, height: 2 }).unwrap();
    let r = set.bind_check();
    assert_eq!(r.unwrap_err(), RenderError::BindingIncomplete { binding: 2 });
}

#[test]
fn binding_index_past_the_layout_fails_and_allocates_nothing() {
    let device = Device::new(1_000);
    let allocator = DescriptorAllocator::new(three_binding_layout());
    let mut set = allocator.allocate(&three_binding_layout()).unwrap();
    let r = set.write(5, ResourceView::Sampler);
    assert_eq!(r.unwrap_err(), RenderError::BindingOutOfRange { binding: 5, count: 3 });
    assert_eq!(device.used, 0);
    assert!(set.bind_check().is_err());
}

#[test]
fn wrong_view_kind_fails_type_mismatch() {
    let allocator = DescriptorAllocator::new(three_binding_layout());
    let mut set = allocator.allocate(&three_binding_layout()).unwrap();
    let r = set.write(0, ResourceView::Sampler);
    assert_eq!(r.unwrap_err(), RenderError::TypeMismatch { binding: 0 });
}

#[test]
fn allocating_a_different_layout_fails_mismatch() {
    let allocator = DescriptorAllocator::new(three_binding_layout());
    let requested = SetLayout::new(vec![DescriptorType::Sampler]);
    let r = allocator.allocate(&requested);
    assert_eq!(r.unwrap_err(), RenderError::LayoutMismatch);
}

#[test]
fn layouts_compare_by_binding_types() {
    let a = three_binding_layout();
    let b = three_binding_layout();
    let c = SetLayout::new(vec![DescriptorType::UniformBuffer]);
    assert!(a.same_as(&b));
    assert!(!a.same_as(&c));
    assert_eq!(a.binding_count(), 3);
    assert_eq!(a.duplicate().binding_count(), 3);
}
