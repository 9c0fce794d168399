//! Tests for the device-level wrappers, the material module (including the
//! image decoding path), and the driver model itself.

use radiance::device::{CommandPoolCreateInfo, Device};
use radiance::driver::{Capabilities, Driver, PhysicalDeviceInfo, QueueFamily};
use radiance::handles::{CommandBufferLevel, DriverError, DriverOp, HandleKind};
use radiance::material::{MaterialDef, SimpleMaterialDef, TextureDef};
use radiance::pipeline_layout::PipelineLayout;
use radiance::sampler::Sampler;

fn caps() -> Capabilities {
    Capabilities {
        min_image_count: 1,
        max_image_count: 0,
        width: 64,
        height: 64,
        format: 50,
        present_mode: 2,
    }
}

fn setup() -> (Driver, Device) {
    let info = PhysicalDeviceInfo {
        queue_families: vec![QueueFamily { graphics: true, present: true }],
    };
    let mut driver = Driver::new(vec![info], caps());
    let instance = driver.allocate(HandleKind::Instance, 0);
    let device = Device::new(&mut driver, instance, 0, 0);
    (driver, device)
}

#[test]
fn command_pool_creation_and_reset() {
    let (mut driver, device) = setup();
    let info = CommandPoolCreateInfo {
        transient: true,
        reset_command_buffer: true,
        queue_family_index: 0,
    };
    let pool = device.create_command_pool(&mut driver, &info).unwrap();
    let cbs = device
        .allocate_command_buffers(&mut driver, pool, 4, CommandBufferLevel::Primary)
        .unwrap();
    assert_eq!(cbs.len(), 4);
    for cb in &cbs {
        assert!(driver.is_live_exec(*cb));
    }
    driver.reset_command_pool(pool);
    for cb in &cbs {
        assert!(!driver.is_live_exec(*cb));
    }
    assert!(driver.is_live_exec(pool));
}

#[test]
fn freeing_command_buffers_releases_exactly_those() {
    let (mut driver, device) = setup();
    let info = CommandPoolCreateInfo {
        transient: false,
        reset_command_buffer: false,
        queue_family_index: 0,
    };
    let pool = device.create_command_pool(&mut driver, &info).unwrap();
    let cbs = device
        .allocate_command_buffers(&mut driver, pool, 2, CommandBufferLevel::Primary)
        .unwrap();
    let keep = device
        .allocate_command_buffers(&mut driver, pool, 1, CommandBufferLevel::Primary)
        .unwrap();
    device.free_command_buffers(&mut driver, pool, &cbs);
    assert!(!driver.is_live_exec(cbs[0]));
    assert!(!driver.is_live_exec(cbs[1]));
    assert!(driver.is_live_exec(keep[0]));
    assert_eq!(
        &driver.trace[driver.trace.len() - 2..],
        &[
            DriverOp::Destroy(HandleKind::CommandBuffer, cbs[0]),
            DriverOp::Destroy(HandleKind::CommandBuffer, cbs[1]),
        ],
    );
}

#[test]
fn descriptor_pool_lifecycle() {
    let (mut driver, device) = setup();
    let dpool = device.create_descriptor_pool(&mut driver, 8).unwrap();
    let layout = device.create_descriptor_set_layout(&mut driver, 2).unwrap();
    let sets = device.allocate_descriptor_sets(&mut driver, dpool, 3).unwrap();
    assert_eq!(sets.len(), 3);
    device.update_descriptor_sets(&mut driver, &sets);
    device.reset_descriptor_pool(&mut driver, dpool);
    for s in &sets {
        assert!(!driver.is_live_exec(*s));
    }
    device.destroy_descriptor_set_layout(&mut driver, layout);
    device.destroy_descriptor_pool(&mut driver, dpool);
    assert!(!driver.is_live_exec(dpool));
    assert!(!driver.is_live_exec(layout));
}

#[test]
fn image_view_create_and_destroy() {
    let (mut driver, device) = setup();
    // An image owned by nothing in particular, as a texture image would be.
    let image = driver.allocate(HandleKind::Image, 0);
    let view = device.create_image_view(&mut driver, image).unwrap();
    assert!(driver.is_live_exec(view));
    device.destroy_image_view(&mut driver, view);
    assert!(!driver.is_live_exec(view));
}

#[test]
fn device_destroy_releases_its_queues() {
    let (mut driver, device) = setup();
    let queue = device.get_device_queue(&mut driver, 0, 0);
    assert!(driver.is_live_exec(queue));
    device.destroy(&mut driver);
    assert!(!driver.is_live_exec(device.handle));
    assert!(!driver.is_live_exec(queue));
}

#[test]
fn exhausted_budget_fails_pool_creation() {
    let (mut driver, device) = setup();
    driver.set_budget(Some(0));
    let info = CommandPoolCreateInfo {
        transient: true,
        reset_command_buffer: true,
        queue_family_index: 0,
    };
    assert_eq!(
        device.create_command_pool(&mut driver, &info),
        Err(DriverError::OutOfMemory),
    );
}

#[test]
fn pipeline_layout_wraps_one_handle() {
    let (mut driver, device) = setup();
    let dsl = device.create_descriptor_set_layout(&mut driver, 1).unwrap();
    let layouts = vec![dsl];
    let pl = PipelineLayout::new(&mut driver, &device, &layouts);
    assert!(driver.is_live_exec(pl.vk_pipeline_layout()));
    assert_eq!(pl.descriptor_set_layouts, vec![dsl]);
    pl.destroy(&mut driver);
    assert!(!driver.is_live_exec(pl.vk_pipeline_layout()));
}

#[test]
fn sampler_uses_the_fixed_default_configuration() {
    let (mut driver, device) = setup();
    let sampler = Sampler::new(&mut driver, &device).unwrap();
    assert!(driver.is_live_exec(sampler.vk_sampler()));
    assert!(sampler.config.mag_linear);
    assert!(sampler.config.min_linear);
    assert!(sampler.config.address_repeat);
    assert!(sampler.config.anisotropy_enable);
    assert_eq!(sampler.config.max_anisotropy, 16);
    assert!(!sampler.config.compare_enable);
    assert!(!sampler.config.unnormalized_coordinates);
    sampler.destroy(&mut driver);
    assert!(!driver.is_live_exec(sampler.vk_sampler()));
}

#[test]
fn material_def_keeps_what_it_was_built_from() {
    let shader = radiance::material::simple_shader_def();
    let def = MaterialDef::new("wood", shader, Vec::new());
    assert_eq!(def.name(), "wood");
    assert_eq!(def.shader().name, "simple");
    assert_eq!(def.textures().len(), 0);
}

#[test]
fn simple_material_decodes_a_png_texture() {
    // A 1x1 RGBA PNG holding the single pixel (10, 20, 30, 255).
    let png: Vec<u8> = vec![
        137, 80, 78, 71, 13, 10, 26, 10, 0, 0, 0, 13, 73, 72, 68, 82, 0, 0, 0, 1, 0, 0, 0, 1, 8,
        6, 0, 0, 0, 31, 21, 196, 137, 0, 0, 0, 13, 73, 68, 65, 84, 120, 156, 99, 224, 18, 145,
        251, 15, 0, 1, 164, 1, 60, 147, 139, 14, 183, 0, 0, 0, 0, 73, 69, 78, 68, 174, 66, 96,
        130,
    ];
    let def = SimpleMaterialDef::create(&png);
    assert_eq!(def.name(), "simple_material");
    assert_eq!(def.textures().len(), 1);
    let TextureDef::ImageTextureDef(pixels) = &def.textures()[0];
    let img = pixels.as_ref().expect("the PNG decodes");
    assert_eq!(img.width, 1);
    assert_eq!(img.height, 1);
    assert_eq!(img.pixels, vec![10, 20, 30, 255]);
}

#[test]
fn simple_material_reports_undecodable_bytes() {
    let garbage: Vec<u8> = vec![1, 2, 3, 4, 5];
    let def = SimpleMaterialDef::create(&garbage);
    let TextureDef::ImageTextureDef(pixels) = &def.textures()[0];
    assert!(pixels.is_none());
}

#[test]
fn ledger_ids_are_never_reused() {
    let (mut driver, device) = setup();
    let a = driver.allocate(HandleKind::Buffer, 0);
    driver.destroy(HandleKind::Buffer, a);
    let b = driver.allocate(HandleKind::Buffer, 0);
    assert_ne!(a, b);
    let _ = device;
}
