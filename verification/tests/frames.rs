//! Frame tests: scene upload, rendering, the submit-and-present protocol,
//! swapchain invalidation and recovery, and buffer round trips.

use radiance::buffer::{Buffer, BufferType};
use radiance::driver::{Capabilities, Driver, PhysicalDeviceInfo, QueueFamily};
use radiance::engine::{DrawOutcome, VulkanRenderingEngine};
use radiance::handles::{DriverError, DriverOp, PipelineStage, PresentOutcome};
use radiance::scene::{Entity, RenderObject, Scene};

fn caps(min_images: u32, width: u32, height: u32) -> Capabilities {
    Capabilities {
        min_image_count: min_images,
        max_image_count: 0,
        width,
        height,
        format: 50,
        present_mode: 2,
    }
}

fn fresh_driver() -> Driver {
    let device = PhysicalDeviceInfo {
        queue_families: vec![QueueFamily { graphics: true, present: true }],
    };
    Driver::new(vec![device], caps(2, 800, 600))
}

fn drawable() -> Entity {
    Entity {
        render_object: Some(RenderObject {
            vertex_data: vec![1, 2, 3, 4, 5, 6, 7, 8],
            vertex_size: 4,
            index_data: vec![0, 0, 0, 0, 1, 0, 0, 0, 2, 0, 0, 0],
        }),
        vulkan_render_object: None,
    }
}

fn empty_entity() -> Entity {
    Entity { render_object: None, vulkan_render_object: None }
}

#[test]
fn scene_loaded_creates_one_command_buffer_set_per_drawable() {
    let mut driver = fresh_driver();
    let engine = VulkanRenderingEngine::new(&mut driver).unwrap();
    let mut scene = Scene { entities: vec![drawable(), empty_entity(), drawable(), drawable()] };
    engine.scene_loaded(&mut driver, &mut scene).unwrap();
    let n = engine.swapchain.as_ref().unwrap().framebuffers.len();
    let mut sets = 0;
    for ent in &scene.entities {
        if let Some(o) = &ent.vulkan_render_object {
            sets += 1;
            assert_eq!(o.command_buffers.len(), n);
            for cb in &o.command_buffers {
                assert_eq!(cb.level, radiance::handles::CommandBufferLevel::Primary);
            }
        }
    }
    assert_eq!(sets, 3);
}

#[test]
fn scene_loaded_then_render_presents_every_drawable() {
    let mut driver = fresh_driver();
    let mut engine = VulkanRenderingEngine::new(&mut driver).unwrap();
    let mut scene = Scene { entities: vec![drawable(), drawable()] };
    engine.scene_loaded(&mut driver, &mut scene).unwrap();
    let outcomes = engine.render(&mut driver, &mut scene);
    assert_eq!(outcomes, vec![DrawOutcome::Presented, DrawOutcome::Presented]);
    assert!(engine.swapchain.is_some());
}

#[test]
fn entities_without_gpu_state_are_skipped() {
    let mut driver = fresh_driver();
    let mut engine = VulkanRenderingEngine::new(&mut driver).unwrap();
    let mut scene = Scene { entities: vec![empty_entity()] };
    let outcomes = engine.render(&mut driver, &mut scene);
    assert_eq!(outcomes, vec![DrawOutcome::Skipped]);
}

#[test]
fn render_records_the_submit_and_present_protocol() {
    let mut driver = fresh_driver();
    let mut engine = VulkanRenderingEngine::new(&mut driver).unwrap();
    let mut scene = Scene { entities: vec![drawable()] };
    engine.scene_loaded(&mut driver, &mut scene).unwrap();
    let chain = engine.swapchain.as_ref().unwrap().handle;
    let cb = scene.entities[0].vulkan_render_object.as_ref().unwrap().command_buffers[0].handle;
    let before = driver.trace.len();
    let outcomes = engine.render(&mut driver, &mut scene);
    assert_eq!(outcomes, vec![DrawOutcome::Presented]);
    // The full synchronization wiring: acquire signals image-available, the
    // submit waits on it at the color-attachment-output stage and signals
    // render-finished, the present waits on render-finished, and the engine
    // blocks on queue idle before returning.
    assert_eq!(
        &driver.trace[before..],
        &[
            DriverOp::AcquireImage {
                chain,
                image_index: 0,
                signal_semaphore: engine.image_available_semaphore,
            },
            DriverOp::QueueSubmit {
                queue: engine.queue,
                command_buffer: cb,
                wait_semaphore: Some(engine.image_available_semaphore),
                wait_stage: Some(PipelineStage::ColorAttachmentOutput),
                signal_semaphore: Some(engine.render_finished_semaphore),
            },
            DriverOp::PresentImage {
                chain,
                image_index: 0,
                wait_semaphore: engine.render_finished_semaphore,
            },
            DriverOp::WaitIdle,
        ],
    );
}

#[test]
fn acquired_images_rotate_round_robin() {
    let mut driver = fresh_driver();
    let mut engine = VulkanRenderingEngine::new(&mut driver).unwrap();
    let mut scene = Scene { entities: vec![drawable()] };
    engine.scene_loaded(&mut driver, &mut scene).unwrap();
    let chain = engine.swapchain.as_ref().unwrap().handle;
    for expected in [0u64, 1, 2, 0] {
        let before = driver.trace.len();
        engine.render(&mut driver, &mut scene);
        assert_eq!(
            driver.trace[before],
            DriverOp::AcquireImage {
                chain,
                image_index: expected,
                signal_semaphore: engine.image_available_semaphore,
            },
        );
    }
}

#[test]
fn out_of_date_present_discards_and_next_frame_rebuilds() {
    let mut driver = fresh_driver();
    let mut engine = VulkanRenderingEngine::new(&mut driver).unwrap();
    let mut scene = Scene { entities: vec![drawable(), drawable()] };
    engine.scene_loaded(&mut driver, &mut scene).unwrap();
    let old_framebuffers = engine.swapchain.as_ref().unwrap().framebuffers.clone();

    // Frame K: the first drawable's present reports out-of-date; the
    // swapchain is absent immediately after, and the second drawable is
    // skipped.
    driver.set_present_schedule(vec![PresentOutcome::OutOfDate]);
    let outcomes = engine.render(&mut driver, &mut scene);
    assert_eq!(outcomes, vec![DrawOutcome::Invalidated, DrawOutcome::Skipped]);
    assert!(engine.swapchain.is_none());

    // The window was resized meanwhile: a fresh capability snapshot.
    driver.set_capabilities(caps(2, 1024, 768));
    driver.set_present_schedule(vec![]);

    // Frame K+1: the swapchain is rebuilt and every drawable's command
    // buffers target the new framebuffers.
    let outcomes = engine.render(&mut driver, &mut scene);
    assert_eq!(outcomes, vec![DrawOutcome::Presented, DrawOutcome::Presented]);
    let sc = engine.swapchain.as_ref().unwrap();
    assert_eq!(sc.extent_width, 1024);
    assert_ne!(sc.framebuffers, old_framebuffers);
    for ent in &scene.entities {
        let o = ent.vulkan_render_object.as_ref().unwrap();
        assert_eq!(o.command_buffers.len(), sc.framebuffers.len());
        for (k, cb) in o.command_buffers.iter().enumerate() {
            assert_eq!(cb.framebuffer, sc.framebuffers[k]);
            assert_eq!(cb.pipeline, sc.pipeline);
            assert_eq!(cb.render_pass, sc.render_pass);
            assert_eq!(cb.extent_width, 1024);
            assert_eq!(cb.extent_height, 768);
        }
    }
}

#[test]
fn suboptimal_present_also_discards_the_swapchain() {
    let mut driver = fresh_driver();
    let mut engine = VulkanRenderingEngine::new(&mut driver).unwrap();
    let mut scene = Scene { entities: vec![drawable()] };
    engine.scene_loaded(&mut driver, &mut scene).unwrap();
    driver.set_present_schedule(vec![PresentOutcome::Suboptimal]);
    let outcomes = engine.render(&mut driver, &mut scene);
    assert_eq!(outcomes, vec![DrawOutcome::Invalidated]);
    assert!(engine.swapchain.is_none());
}

#[test]
fn failed_present_still_waits_for_queue_idle() {
    let mut driver = fresh_driver();
    let mut engine = VulkanRenderingEngine::new(&mut driver).unwrap();
    let mut scene = Scene { entities: vec![drawable()] };
    engine.scene_loaded(&mut driver, &mut scene).unwrap();
    driver.set_present_schedule(vec![PresentOutcome::Failure(DriverError::DeviceLost)]);
    let outcomes = engine.render(&mut driver, &mut scene);
    assert_eq!(outcomes, vec![DrawOutcome::Failed(DriverError::DeviceLost)]);
    // At most one frame is ever in flight: the engine blocks on queue idle
    // after the submit/present cycle also when the present call failed.
    assert_eq!(driver.trace.last(), Some(&DriverOp::WaitIdle));
}

#[test]
fn per_drawable_present_failure_is_logged_and_skipped() {
    let mut driver = fresh_driver();
    let mut engine = VulkanRenderingEngine::new(&mut driver).unwrap();
    let mut scene = Scene { entities: vec![drawable(), drawable()] };
    engine.scene_loaded(&mut driver, &mut scene).unwrap();
    driver.set_present_schedule(vec![PresentOutcome::Failure(DriverError::DeviceLost)]);
    let outcomes = engine.render(&mut driver, &mut scene);
    // The first drawable fails; the frame goes on and the second presents.
    assert_eq!(
        outcomes,
        vec![DrawOutcome::Failed(DriverError::DeviceLost), DrawOutcome::Presented],
    );
    assert!(engine.swapchain.is_some());
}

#[test]
fn resize_sequences_keep_counts_equal_after_every_rebuild() {
    let mut driver = fresh_driver();
    let mut engine = VulkanRenderingEngine::new(&mut driver).unwrap();
    let mut scene = Scene { entities: vec![drawable()] };
    engine.scene_loaded(&mut driver, &mut scene).unwrap();
    let sizes = [(320u32, 200u32, 1u32), (1920, 1080, 2), (64, 64, 5), (800, 600, 3)];
    for (w, h, min_images) in sizes {
        driver.set_present_schedule(vec![PresentOutcome::OutOfDate]);
        engine.render(&mut driver, &mut scene);
        assert!(engine.swapchain.is_none());
        driver.set_capabilities(caps(min_images, w, h));
        driver.set_present_schedule(vec![]);
        engine.render(&mut driver, &mut scene);
        let sc = engine.swapchain.as_ref().unwrap();
        assert_eq!(sc.images.len() as u32, min_images + 1);
        assert_eq!(sc.image_views.len(), sc.images.len());
        assert_eq!(sc.framebuffers.len(), sc.images.len());
    }
    engine.destroy(&mut driver);
}

#[test]
fn empty_buffer_uploads_without_driver_error() {
    let mut driver = fresh_driver();
    let engine = VulkanRenderingEngine::new(&mut driver).unwrap();
    let empty: Vec<u8> = Vec::new();
    let buffer = engine.create_buffer(&mut driver, BufferType::Vertex, &empty, 4).unwrap();
    assert_eq!(buffer.element_count(), 0);
    assert!(driver.is_live_exec(buffer.buffer()));
}

#[test]
fn buffer_contents_round_trip_through_the_staging_path() {
    let mut driver = fresh_driver();
    let engine = VulkanRenderingEngine::new(&mut driver).unwrap();
    let data: Vec<u8> = vec![9, 8, 7, 6, 5, 4, 3, 2, 1, 0, 11, 22];
    let buffer = engine.create_buffer(&mut driver, BufferType::Index, &data, 4).unwrap();
    assert_eq!(buffer.element_count(), 3);
    let read = buffer.read_back(&mut driver, engine.command_pool, engine.queue).unwrap();
    assert_eq!(read, data);
}

#[test]
fn buffer_upload_uses_a_staging_buffer_and_one_shot_commands() {
    let mut driver = fresh_driver();
    let engine = VulkanRenderingEngine::new(&mut driver).unwrap();
    let live_before = driver.live.len();
    let first = driver.next;
    let data: Vec<u8> = vec![1, 2, 3, 4];
    let buffer = Buffer::new_buffer_with_data(
        &mut driver,
        &engine.device,
        &data,
        2,
        BufferType::Vertex,
        engine.command_pool,
        engine.queue,
    )
    .unwrap();
    assert_eq!(buffer.element_count(), 2);
    // Net effect on the ledger: exactly one new live handle, the
    // device-local buffer; the staging buffer and the one-shot command
    // buffer are gone again.
    assert_eq!(driver.live.len(), live_before + 1);
    assert!(!driver.is_live_exec(first));
    assert!(driver.is_live_exec(buffer.buffer()));
}

#[test]
fn exhausted_budget_fails_buffer_creation_cleanly() {
    let mut driver = fresh_driver();
    let engine = VulkanRenderingEngine::new(&mut driver).unwrap();
    driver.set_budget(Some(2));
    let data: Vec<u8> = vec![1, 2, 3, 4];
    match engine.create_buffer(&mut driver, BufferType::Vertex, &data, 4) {
        Err(radiance::handles::RenderError::Driver(DriverError::OutOfMemory)) => {},
        _ => panic!("expected an out-of-memory failure"),
    }
}

#[test]
fn exhausted_budget_fails_scene_upload_without_partial_state() {
    let mut driver = fresh_driver();
    let engine = VulkanRenderingEngine::new(&mut driver).unwrap();
    // Uploading two drawables needs 6 creations per buffer pair plus one
    // command buffer per framebuffer each; five creations cannot cover it.
    driver.set_budget(Some(5));
    let mut scene = Scene { entities: vec![drawable(), drawable()] };
    match engine.scene_loaded(&mut driver, &mut scene) {
        Err(radiance::handles::RenderError::Driver(DriverError::OutOfMemory)) => {},
        _ => panic!("expected an out-of-memory failure"),
    }
    // All-or-nothing: no entity was given GPU state.
    for ent in &scene.entities {
        assert!(ent.vulkan_render_object.is_none());
    }
}

#[test]
fn render_rebuilds_after_an_explicit_discard() {
    let mut driver = fresh_driver();
    let mut engine = VulkanRenderingEngine::new(&mut driver).unwrap();
    let mut scene = Scene { entities: vec![drawable()] };
    engine.scene_loaded(&mut driver, &mut scene).unwrap();
    // Discard ahead of a known resize, as the orchestrator may do.
    let sc = engine.swapchain.take().unwrap();
    sc.teardown(&mut driver).unwrap();
    driver.set_capabilities(caps(4, 320, 240));
    let outcomes = engine.render(&mut driver, &mut scene);
    assert_eq!(outcomes, vec![DrawOutcome::Presented]);
    let sc = engine.swapchain.as_ref().unwrap();
    assert_eq!(sc.images.len(), 5);
    assert_eq!(sc.extent_width, 320);
}

#[test]
fn recreate_swapchain_takes_a_fresh_capability_snapshot() {
    let mut driver = fresh_driver();
    let mut engine = VulkanRenderingEngine::new(&mut driver).unwrap();
    let old_chain = engine.swapchain.as_ref().unwrap().handle;
    driver.set_capabilities(caps(2, 2048, 1536));
    engine.recreate_swapchain(&mut driver).unwrap();
    let sc = engine.swapchain.as_ref().unwrap();
    assert_ne!(sc.handle, old_chain);
    assert_eq!(sc.extent_width, 2048);
    assert_eq!(sc.extent_height, 1536);
    assert_eq!(sc.image_views.len(), sc.images.len());
    assert_eq!(sc.framebuffers.len(), sc.images.len());
    engine.destroy(&mut driver);
    assert_eq!(driver.live.len(), 0);
}
