//! Lifecycle tests: engine construction and teardown, handle accounting,
//! destroy ordering, and the two device/swapchain destroy orders.

use radiance::driver::{Capabilities, Driver, PhysicalDeviceInfo, QueueFamily};
use radiance::engine::VulkanRenderingEngine;
use radiance::handles::{DriverOp, HandleKind, RenderError};

fn caps(min_images: u32, max_images: u32, width: u32, height: u32) -> Capabilities {
    Capabilities {
        min_image_count: min_images,
        max_image_count: max_images,
        width,
        height,
        format: 50,
        present_mode: 2,
    }
}

fn good_device() -> PhysicalDeviceInfo {
    PhysicalDeviceInfo {
        queue_families: vec![
            QueueFamily { graphics: false, present: true },
            QueueFamily { graphics: true, present: true },
        ],
    }
}

fn fresh_driver() -> Driver {
    Driver::new(vec![good_device()], caps(2, 0, 800, 600))
}

#[test]
fn engine_new_builds_swapchain_with_counts_matching() {
    let mut driver = fresh_driver();
    let engine = VulkanRenderingEngine::new(&mut driver).unwrap();
    let sc = engine.swapchain.as_ref().unwrap();
    // min_image_count 2 and no maximum: 3 images, and one view and one
    // framebuffer per image.
    assert_eq!(sc.images.len(), 3);
    assert_eq!(sc.image_views.len(), 3);
    assert_eq!(sc.framebuffers.len(), 3);
    assert_eq!(sc.extent_width, 800);
    assert_eq!(sc.extent_height, 600);
    assert_eq!(sc.format, 50);
}

#[test]
fn image_count_respects_maximum() {
    let mut driver = Driver::new(vec![good_device()], caps(2, 2, 640, 480));
    let engine = VulkanRenderingEngine::new(&mut driver).unwrap();
    let sc = engine.swapchain.as_ref().unwrap();
    assert_eq!(sc.images.len(), 2);
    engine.destroy(&mut driver);
    assert_eq!(driver.live.len(), 0);
}

#[test]
fn engine_destroy_releases_every_handle() {
    let mut driver = fresh_driver();
    let engine = VulkanRenderingEngine::new(&mut driver).unwrap();
    assert!(driver.live.len() > 0);
    engine.destroy(&mut driver);
    assert_eq!(driver.live.len(), 0);
}

#[test]
fn engine_destroy_order_matches_documented_dependency_order() {
    let mut driver = fresh_driver();
    let engine = VulkanRenderingEngine::new(&mut driver).unwrap();
    let sc = engine.swapchain.as_ref().unwrap();
    let mut expected: Vec<DriverOp> = vec![DriverOp::WaitIdle];
    for fb in &sc.framebuffers {
        expected.push(DriverOp::Destroy(HandleKind::Framebuffer, *fb));
    }
    expected.push(DriverOp::Destroy(HandleKind::Pipeline, sc.pipeline));
    expected.push(DriverOp::Destroy(HandleKind::PipelineLayout, sc.pipeline_layout));
    expected.push(DriverOp::Destroy(HandleKind::RenderPass, sc.render_pass));
    for view in &sc.image_views {
        expected.push(DriverOp::Destroy(HandleKind::ImageView, *view));
    }
    expected.push(DriverOp::Destroy(HandleKind::Swapchain, sc.handle));
    expected.push(DriverOp::Destroy(HandleKind::CommandPool, engine.command_pool));
    expected.push(DriverOp::Destroy(HandleKind::Semaphore, engine.image_available_semaphore));
    expected.push(DriverOp::Destroy(HandleKind::Semaphore, engine.render_finished_semaphore));
    expected.push(DriverOp::Destroy(HandleKind::Device, engine.device.handle));
    expected.push(DriverOp::Destroy(HandleKind::Surface, engine.surface));
    expected.push(DriverOp::Destroy(HandleKind::Instance, engine.instance));
    let before = driver.trace.len();
    engine.destroy(&mut driver);
    assert_eq!(&driver.trace[before..], &expected[..]);
}

#[test]
fn engine_destroy_with_absent_swapchain_releases_everything() {
    let mut driver = fresh_driver();
    let mut engine = VulkanRenderingEngine::new(&mut driver).unwrap();
    // Tear the swapchain down early (device still live: the documented
    // order), leaving the engine in the absent state.
    let sc = engine.swapchain.take().unwrap();
    assert_eq!(sc.teardown(&mut driver), Ok(()));
    engine.destroy(&mut driver);
    assert_eq!(driver.live.len(), 0);
}

#[test]
fn swapchain_teardown_after_device_release_is_reported() {
    let mut driver = fresh_driver();
    let mut engine = VulkanRenderingEngine::new(&mut driver).unwrap();
    // The wrong destroy order: release the device while the swapchain still
    // holds its non-owning reference.
    engine.device.destroy(&mut driver);
    let sc = engine.swapchain.take().unwrap();
    let trace_before = driver.trace.len();
    let live_before = driver.live.len();
    assert_eq!(sc.teardown(&mut driver), Err(RenderError::DeviceGone));
    // Nothing was destroyed by the failed teardown.
    assert_eq!(driver.trace.len(), trace_before);
    assert_eq!(driver.live.len(), live_before);
}

#[test]
fn no_suitable_device_is_reported() {
    let unsuitable = PhysicalDeviceInfo {
        queue_families: vec![QueueFamily { graphics: true, present: false }],
    };
    let mut driver = Driver::new(vec![unsuitable], caps(1, 0, 100, 100));
    match VulkanRenderingEngine::new(&mut driver) {
        Err(RenderError::NoSuitableDevice) => {},
        other => panic!("expected no suitable device, got {:?}", other.is_ok()),
    }
    assert_eq!(driver.live.len(), 0);
}

#[test]
fn first_suitable_device_and_family_are_selected() {
    let unsuitable = PhysicalDeviceInfo {
        queue_families: vec![QueueFamily { graphics: true, present: false }],
    };
    let mut driver = Driver::new(vec![unsuitable, good_device()], caps(1, 0, 100, 100));
    let engine = VulkanRenderingEngine::new(&mut driver).unwrap();
    assert_eq!(engine.physical_device_index, 1);
    assert_eq!(engine.device.queue_family_index, 1);
    engine.destroy(&mut driver);
}

#[test]
fn exhausted_creation_budget_fails_engine_creation() {
    let mut driver = fresh_driver();
    driver.set_budget(Some(3));
    match VulkanRenderingEngine::new(&mut driver) {
        Err(RenderError::Driver(radiance::handles::DriverError::OutOfMemory)) => {},
        _ => panic!("expected an out-of-memory failure"),
    }
    // Nothing was created by the failed construction.
    assert_eq!(driver.live.len(), 0);
    assert_eq!(driver.trace.len(), 0);
}
