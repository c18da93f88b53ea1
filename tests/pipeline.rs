use dds_edit::dds::{map_channels_format, BlockFormat, DdsConvertConfig, Mipmaps, Quality};
use dds_edit::filetype::{container_file_name, raster_file_name, FileType};
use dds_edit::dispatch::{Dispatcher, DispatchAction, JobResult};
use dds_edit::imagedata::ImageData;
use dds_edit::paths::{mirror_path, FsPath, PathError};
use dds_edit::pipeline::{scale_height, ImageJob, JobAction, JobEvent, Stage, WidthOutcome};

fn path(parts: &[&str]) -> FsPath {
    FsPath { parts: parts.iter().map(|s| s.to_string()).collect() }
}

fn names(p: &FsPath) -> Vec<&str> {
    p.parts.iter().map(|s| s.as_str()).collect()
}

fn job(file: &[&str], widths: Vec<u32>) -> ImageJob {
    let input = path(file);
    let output = mirror_path(&path(&["/", "in"]), &path(&["/", "out"]), &input).unwrap();
    ImageJob::new(ImageData::from_paths(&input, &output), widths)
}

/// Runs a job to its end with every action succeeding; returns the actions asked for.
fn run_ok(j: &mut ImageJob, w: u32, h: u32, channels: u8) -> Vec<JobAction> {
    let mut actions = vec![j.current_action()];
    let mut a = j.step(JobEvent::Decoded { width: w, height: h, channels });
    while !matches!(a, JobAction::Finish) {
        actions.push(a.clone());
        a = j.step(JobEvent::Completed);
    }
    actions
}

#[test]
fn mirror_replaces_input_root() {
    let r = mirror_path(&path(&["/", "in"]), &path(&["/", "out"]), &path(&["/", "in", "a", "b.png"])).unwrap();
    assert_eq!(names(&r), vec!["/", "out", "a", "b.png"]);
}

#[test]
fn mirror_rejects_path_outside_root() {
    let r = mirror_path(&path(&["/", "in"]), &path(&["/", "out"]), &path(&["/", "other", "b.png"]));
    assert_eq!(r.err(), Some(PathError::NotUnderRoot));
}

#[test]
fn artifacts_land_in_mirrored_directory() {
    let input = path(&["/", "in", "sub", "tex.PNG"]);
    let output = mirror_path(&path(&["/", "in"]), &path(&["/", "out"]), &input).unwrap();
    let d = ImageData::from_paths(&input, &output);
    assert_eq!(names(&d.file_path_in), vec!["/", "in", "sub"]);
    assert_eq!(names(&d.file_path_out), vec!["/", "out", "sub"]);
    assert_eq!(d.file_name, "tex");
    assert_eq!(d.file_type, FileType::PNG);
    assert_eq!(d.channels, 0);
}

#[test]
fn extension_kind_ignores_case() {
    assert_eq!(FileType::from_extension("JPG"), FileType::JPG);
    assert_eq!(FileType::from_extension("Jpeg"), FileType::JPG);
    assert_eq!(FileType::from_extension("png"), FileType::PNG);
    assert_eq!(FileType::from_extension("gif"), FileType::UNKNOWN);
    assert_eq!(FileType::from_lowered("JPG"), FileType::UNKNOWN);
}

#[test]
fn artifact_names() {
    assert_eq!(raster_file_name("tex", 512, FileType::JPG), "tex_512.jpg");
    assert_eq!(raster_file_name("tex", 0, FileType::UNKNOWN), "tex_0.img");
    assert_eq!(container_file_name("tex", 1024), "tex_1024.dds");
}

#[test]
fn width_validity_example() {
    let mut j = job(&["/", "in", "a.png"], vec![512, 1024, 2048]);
    let actions = run_ok(&mut j, 1024, 512, 3);
    let saved: Vec<u32> = actions
        .iter()
        .filter_map(|a| match a {
            JobAction::SaveContainer { width, .. } => Some(*width),
            _ => None,
        })
        .collect();
    assert_eq!(saved, vec![512, 1024]);
    assert_eq!(j.stage, Stage::Done);
    assert!(matches!(j.outcomes[0], WidthOutcome::Saved));
    assert!(matches!(j.outcomes[1], WidthOutcome::Saved));
    assert!(matches!(j.outcomes[2], WidthOutcome::Skipped));
}

#[test]
fn zero_width_is_skipped() {
    let mut j = job(&["/", "in", "a.png"], vec![0, 100]);
    run_ok(&mut j, 200, 100, 4);
    assert!(matches!(j.outcomes[0], WidthOutcome::Skipped));
    assert!(matches!(j.outcomes[1], WidthOutcome::Saved));
}

#[test]
fn job_actions_in_order() {
    let mut j = job(&["/", "in", "d", "a.jpeg"], vec![400]);
    let actions = run_ok(&mut j, 800, 600, 3);
    assert!(matches!(actions[0], JobAction::Decode));
    assert!(matches!(actions[1], JobAction::Resize { width: 400, height: 300 }));
    match &actions[2] {
        JobAction::SaveRaster { width, file_name } => {
            assert_eq!(*width, 400);
            assert_eq!(file_name, "a_400.jpg");
        }
        _ => panic!("expected a raster save"),
    }
    assert!(matches!(actions[3], JobAction::Compress { width: 400, format: BlockFormat::Bc1RgbaUnormSrgb }));
    match &actions[4] {
        JobAction::SaveContainer { width, file_name } => {
            assert_eq!(*width, 400);
            assert_eq!(file_name, "a_400.dds");
        }
        _ => panic!("expected a container save"),
    }
    assert_eq!(actions.len(), 5);
}

#[test]
fn channel_count_selects_format() {
    assert_eq!(map_channels_format(3), BlockFormat::Bc1RgbaUnormSrgb);
    assert_eq!(map_channels_format(4), BlockFormat::Bc7RgbaUnormSrgb);
    assert_eq!(map_channels_format(1), BlockFormat::Bc1RgbaUnormSrgb);
    assert!(!BlockFormat::Bc1RgbaUnormSrgb.carries_alpha());
    assert!(BlockFormat::Bc7RgbaUnormSrgb.carries_alpha());
    let mut j = job(&["/", "in", "a.png"], vec![10]);
    let actions = run_ok(&mut j, 10, 10, 4);
    assert!(matches!(actions[3], JobAction::Compress { format: BlockFormat::Bc7RgbaUnormSrgb, .. }));
}

#[test]
fn dds_settings() {
    let c = DdsConvertConfig::new();
    assert_eq!(c.quality, Quality::Normal);
    assert_eq!(c.mipmaps, Mipmaps::GeneratedAutomatic);
}

#[test]
fn aspect_ratio_exact() {
    assert_eq!(scale_height(600, 400, 800), 300);
}

#[test]
fn aspect_ratio_rounds_down() {
    assert_eq!(scale_height(600, 400, 801), 299);
}

#[test]
fn raster_request_repeats_exactly() {
    let mut a = job(&["/", "in", "a.png"], vec![300]);
    let mut b = job(&["/", "in", "a.png"], vec![300]);
    let ra = run_ok(&mut a, 801, 600, 3);
    let rb = run_ok(&mut b, 801, 600, 3);
    assert_eq!(format!("{:?}", ra), format!("{:?}", rb));
    assert!(matches!(ra[1], JobAction::Resize { width: 300, height: 224 }));
}

#[test]
fn decode_failure_makes_nothing() {
    let mut j = job(&["/", "in", "broken.png"], vec![100, 200]);
    let a = j.step(JobEvent::Failed("bad header".to_string()));
    assert!(matches!(a, JobAction::Finish));
    assert_eq!(j.decode_error.as_deref(), Some("bad header"));
    assert!(j.outcomes.is_empty());
    assert!(matches!(j.step(JobEvent::Completed), JobAction::Finish));
}

#[test]
fn width_failure_moves_to_next_width() {
    let mut j = job(&["/", "in", "a.png"], vec![100, 200]);
    j.step(JobEvent::Decoded { width: 400, height: 400, channels: 3 });
    let a = j.step(JobEvent::Failed("resize".to_string()));
    assert!(matches!(a, JobAction::Resize { width: 200, height: 200 }));
    assert!(matches!(&j.outcomes[0], WidthOutcome::Failed(m) if m == "resize"));
}

#[test]
fn unknown_kind_does_nothing() {
    let j = job(&["/", "in", "a.bmp"], vec![100]);
    assert_eq!(j.data.file_type, FileType::UNKNOWN);
    assert!(matches!(j.current_action(), JobAction::Finish));
}

#[test]
fn dispatch_bounds_running_jobs() {
    let mut g = Dispatcher::new(2, 5);
    let mut running: Vec<usize> = Vec::new();
    let mut most = 0;
    loop {
        match g.next_action() {
            DispatchAction::Dispatch(i) => {
                running.push(i);
                most = most.max(running.len());
                assert!(g.active <= g.threads);
            }
            DispatchAction::AwaitCompletion => {
                let i = running.remove(0);
                let r = if i == 1 {
                    JobResult::Fault("decode".to_string())
                } else {
                    JobResult::Finished { outcomes: vec![WidthOutcome::Saved], decode_error: None }
                };
                g.job_finished(i, r);
            }
            DispatchAction::Complete => break,
        }
    }
    assert_eq!(most, 2);
    assert_eq!(g.finished, 5);
    assert!(g.results.iter().all(|r| r.is_some()));
    assert!(matches!(g.results[1], Some(JobResult::Fault(_))));
    assert!(matches!(g.results[4], Some(JobResult::Finished { .. })));
}

#[test]
fn dispatch_single_thread_runs_one_at_a_time() {
    let mut g = Dispatcher::new(1, 2);
    assert_eq!(g.next_action(), DispatchAction::Dispatch(0));
    assert_eq!(g.next_action(), DispatchAction::AwaitCompletion);
    g.job_finished(0, JobResult::Fault("x".to_string()));
    assert_eq!(g.next_action(), DispatchAction::Dispatch(1));
    g.job_finished(1, JobResult::Fault("y".to_string()));
    assert_eq!(g.next_action(), DispatchAction::Complete);
}

#[test]
fn empty_batch_completes_at_once() {
    let mut g = Dispatcher::new(4, 0);
    assert_eq!(g.next_action(), DispatchAction::Complete);
}

#[test]
fn decoded_image_reports_size_and_channels() {
    let rgba = image::DynamicImage::new_rgba8(4, 2);
    assert!(matches!(
        dds_edit::decode::decoded_event(&rgba),
        JobEvent::Decoded { width: 4, height: 2, channels: 4 }
    ));
    let rgb = image::DynamicImage::new_rgb8(7, 3);
    assert!(matches!(
        dds_edit::decode::decoded_event(&rgb),
        JobEvent::Decoded { width: 7, height: 3, channels: 3 }
    ));
    let mut j = job(&["/", "in", "a.png"], vec![4]);
    j.step(dds_edit::decode::decoded_event(&rgb));
    j.step(JobEvent::Completed);
    j.step(JobEvent::Completed);
    assert!(matches!(j.current_action(), JobAction::Compress { width: 4, format: BlockFormat::Bc1RgbaUnormSrgb }));
}
