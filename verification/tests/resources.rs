use rendergraph::error::RenderError;
use rendergraph::resource::{
    AccessStage, Device, MemoryPolicy, Resource, ResourceKind, UsageFlags,
};

fn buffer_usage() -> UsageFlags {
    UsageFlags { vertex: false, uniform: true, sampled: false, color_attachment: false }
}

#[test]
fn create_buffer_charges_device() {
    let mut device = Device::new(100);
    let res = Resource::create(
        ResourceKind::Buffer { size: 10 },
        buffer_usage(),
        MemoryPolicy::Dynamic,
        None,
        &mut device,
    )
    .unwrap();
    assert_eq!(device.used, 10);
    assert_eq!(res.data.len(), 10);
    assert!(res.data.iter().all(|b| *b == 0));
    assert!(res.current_state().is_none());
}

#[test]
fn create_image_charges_four_bytes_per_pixel() {
    let mut device = Device::new(1_000);
    let res = Resource::create(
        ResourceKind::Image { width: 4, height: 4 },
        UsageFlags { vertex: false, uniform: false, sampled: true, color_attachment: false },
        MemoryPolicy::DeviceLocal,
        None,
        &mut device,
    )
    .unwrap();
    assert_eq!(device.used, 64);
    assert_eq!(res.data.len(), 0);
}

#[test]
fn allocation_failure_reports_request_and_budget() {
    let mut device = Device::new(100);
    let r = Resource::create(
        ResourceKind::Buffer { size: 200 },
        buffer_usage(),
        MemoryPolicy::Dynamic,
        None,
        &mut device,
    );
    assert_eq!(r.unwrap_err(), RenderError::Allocation { requested: 200, available: 100 });
    assert_eq!(device.used, 0);
}

#[test]
fn upload_writes_the_requested_range() {
    let mut device = Device::new(100);
    let mut res = Resource::create(
        ResourceKind::Buffer { size: 10 },
        buffer_usage(),
        MemoryPolicy::Dynamic,
        None,
        &mut device,
    )
    .unwrap();
    let bytes = vec![1u8, 2, 3];
    res.upload(2, &bytes).unwrap();
    assert_eq!(res.data, vec![0, 0, 1, 2, 3, 0, 0, 0, 0, 0]);
}

#[test]
fn upload_past_the_end_fails_and_changes_nothing() {
    let mut device = Device::new(100);
    let mut res = Resource::create(
        ResourceKind::Buffer { size: 10 },
        buffer_usage(),
        MemoryPolicy::Dynamic,
        None,
        &mut device,
    )
    .unwrap();
    let bytes = vec![9u8; 5];
    let r = res.upload(8, &bytes);
    assert_eq!(r.unwrap_err(), RenderError::Upload { offset: 8, len: 5, size: 10 });
    assert_eq!(res.data, vec![0u8; 10]);
}

#[test]
fn dispose_returns_the_bytes() {
    let mut device = Device::new(100);
    let res = Resource::create(
        ResourceKind::Buffer { size: 40 },
        buffer_usage(),
        MemoryPolicy::Dynamic,
        None,
        &mut device,
    )
    .unwrap();
    assert_eq!(device.used, 40);
    res.dispose(&mut device);
    assert_eq!(device.used, 0);
}

#[test]
fn usage_flags_cover_the_matching_stages() {
    let u = UsageFlags { vertex: true, uniform: false, sampled: true, color_attachment: false };
    assert!(u.allows(AccessStage::VertexInput));
    assert!(!u.allows(AccessStage::UniformRead));
    assert!(u.allows(AccessStage::ShaderRead));
    assert!(!u.allows(AccessStage::ColorAttachmentWrite));
    assert!(!u.allows(AccessStage::Present));
    assert_eq!(device_free(&Device::new(7)), 7);
}

fn device_free(d: &Device) -> u64 {
    d.available()
}
