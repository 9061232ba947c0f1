use factorize::binding::{native_watcher_setup, rebuild_watcher_setup, watch_dir, BindingWatchEvent, JsWatcherOptions};
use factorize::ignored::FsWatcherIgnored;
use factorize::image_opt::{
    is_image, min_path, optimize, should_optimize, target_size, OptimizeError, OptimizeOptions, OutFormat,
};
use factorize::task_loop::{partition_tasks, Step, TaskLoop, TaskType};

fn s(x: &str) -> String {
    x.to_string()
}

#[test]
fn formats_have_their_extensions() {
    assert_eq!(OutFormat::Jpeg.ext(), "jpg");
    assert_eq!(OutFormat::Png.ext(), "png");
    assert_eq!(OutFormat::WebP.ext(), "webp");
}

#[test]
fn wide_images_are_shrunk_keeping_the_ratio() {
    assert_eq!(target_size(3000, 2000, Some(1500)), Some((1500, 1000)));
    assert_eq!(target_size(1000, 1, Some(10)), Some((10, 1)));
    assert_eq!(target_size(100, 50, Some(100)), None);
    assert_eq!(target_size(100, 50, None), None);
    assert_eq!(target_size(7, 5, Some(3)), Some((3, 2)));
}

#[test]
fn image_paths_and_outputs() {
    assert!(is_image("/p/cat.PNG"));
    assert!(is_image("/p/cat.jpeg"));
    assert!(!is_image("/p/notes.txt"));
    assert!(!is_image("/p/README"));
    assert!(should_optimize("/p/cat.jpg"));
    assert!(!should_optimize("/p/cat.min.jpg"));
    assert_eq!(min_path("/p/cat.png", OutFormat::Jpeg), "/p/cat.min.jpg");
    assert_eq!(min_path("/p/cat.png", OutFormat::WebP), "/p/cat.min.webp");
}

fn tiny_png(width: u32, height: u32) -> Vec<u8> {
    let img = image::RgbImage::from_fn(width, height, |x, y| image::Rgb([(x % 256) as u8, (y % 256) as u8, 7]));
    let mut bytes = Vec::new();
    image::DynamicImage::ImageRgb8(img)
        .write_to(&mut std::io::Cursor::new(&mut bytes), image::ImageFormat::Png)
        .unwrap();
    bytes
}

#[test]
fn optimize_shrinks_and_encodes() {
    let input = tiny_png(40, 20);
    let opts = OptimizeOptions { max_width: Some(10), quality: 75, format: OutFormat::Jpeg };
    let r = optimize(&input, &opts).unwrap();
    assert_eq!((r.width, r.height), (10, 5));
    assert!(!r.bytes.is_empty());
    let opts = OptimizeOptions { max_width: None, quality: 75, format: OutFormat::Png };
    let r = optimize(&input, &opts).unwrap();
    assert_eq!((r.width, r.height), (40, 20));
    assert_eq!(image::load_from_memory(&r.bytes).unwrap().width(), 40);
}

#[test]
fn zero_max_width_gives_a_one_pixel_image() {
    // The target size is (0, 1); resizing keeps each side at least 1.
    assert_eq!(target_size(40, 20, Some(0)), Some((0, 1)));
    let opts = OptimizeOptions { max_width: Some(0), quality: 75, format: OutFormat::Png };
    let r = optimize(&tiny_png(40, 20), &opts).unwrap();
    assert_eq!((r.width, r.height), (1, 1));
    let back = image::load_from_memory(&r.bytes).unwrap();
    assert_eq!((back.width(), back.height()), (1, 1));
}

#[test]
fn jpeg_output_decodes_to_the_reported_size() {
    let opts = OptimizeOptions { max_width: Some(10), quality: 0, format: OutFormat::Jpeg };
    let r = optimize(&tiny_png(40, 20), &opts).unwrap();
    let back = image::load_from_memory(&r.bytes).unwrap();
    assert_eq!((back.width(), back.height()), (r.width, r.height));
    assert_eq!(image::guess_format(&r.bytes).unwrap(), image::ImageFormat::Jpeg);
}

#[test]
fn gif_input_is_decoded() {
    let img = image::RgbaImage::from_fn(8, 4, |x, _| image::Rgba([(x * 30) as u8, 0, 0, 255]));
    let mut bytes = Vec::new();
    image::DynamicImage::ImageRgba8(img)
        .write_to(&mut std::io::Cursor::new(&mut bytes), image::ImageFormat::Gif)
        .unwrap();
    let opts = OptimizeOptions { max_width: Some(4), quality: 90, format: OutFormat::Png };
    let r = optimize(&bytes, &opts).unwrap();
    assert_eq!((r.width, r.height), (4, 2));
}

#[test]
fn undecodable_input_is_a_decode_error() {
    let opts = OptimizeOptions { max_width: None, quality: 75, format: OutFormat::Png };
    assert!(matches!(optimize(b"not an image", &opts), Err(OptimizeError::Decode(_))));
}

#[derive(Debug, PartialEq)]
enum Job {
    Sync,
    Async { fail: bool },
}

/// Runs the task loop with the jobs of the scenario below: a main task
/// counts its runs and, below the maximum, starts two background tasks; a
/// background task yields one main task. Background tasks run when the loop
/// waits, in start order.
fn run(max: u32, sync_fails: bool, async_fails: bool, init: Vec<Job>) -> (Result<(), String>, u32) {
    let mut count = 0u32;
    let typed: Vec<(TaskType, Job)> = init
        .into_iter()
        .map(|j| (if matches!(j, Job::Sync) { TaskType::Main } else { TaskType::Background }, j))
        .collect();
    let (bg, main) = partition_tasks(typed);
    let mut tl = TaskLoop::new(main);
    let mut running: std::collections::VecDeque<Job> = std::collections::VecDeque::new();
    for j in bg {
        tl.background_spawned();
        running.push_back(j);
    }
    loop {
        match tl.next_step() {
            Step::Finished => return (Ok(()), count),
            Step::RunMain(_) => {
                let result: Result<Vec<(TaskType, Job)>, String> = if sync_fails {
                    Err(s("sync"))
                } else {
                    count += 1;
                    if count < max {
                        Ok(vec![
                            (TaskType::Background, Job::Async { fail: async_fails }),
                            (TaskType::Background, Job::Async { fail: async_fails }),
                        ])
                    } else {
                        Ok(vec![])
                    }
                };
                match tl.handle_task_result(result, true) {
                    Ok(new_bg) => running.extend(new_bg),
                    Err(e) => return (Err(e), count),
                }
            }
            Step::WaitBackground => {
                let job = running.pop_front().unwrap();
                let result = match job {
                    Job::Async { fail: true } => Err(s("async")),
                    _ => Ok(vec![(TaskType::Main, Job::Sync)]),
                };
                tl.background_finished();
                match tl.handle_task_result(result, false) {
                    Ok(new_bg) => running.extend(new_bg),
                    Err(e) => {
                        assert!(tl.is_expected_shutdown());
                        return (Err(e), count);
                    }
                }
            }
        }
    }
}

#[test]
fn test_run_task_loop() {
    let (res, count) = run(4, false, false, vec![Job::Async { fail: false }]);
    assert!(res.is_ok(), "task loop should run successfully");
    assert_eq!(count, 7);

    let (res, count) = run(4, true, false, vec![Job::Async { fail: false }]);
    assert!(res.is_err(), "should return sync error");
    assert_eq!(count, 0);

    let (res, count) = run(4, false, true, vec![Job::Async { fail: false }]);
    assert!(res.is_err(), "should return async error");
    assert_eq!(count, 1);
}

#[test]
fn a_failed_result_shuts_down_and_counts_nothing() {
    let mut tl: TaskLoop<u32> = TaskLoop::new(vec![9]);
    let r = tl.handle_task_result::<&str>(Err("boom"), true);
    assert_eq!(r.unwrap_err(), "boom");
    assert!(tl.is_expected_shutdown());
    assert_eq!(tl.background_task_count(), 0);
    assert!(matches!(tl.next_step(), Step::RunMain(9)));
}

#[test]
fn main_results_go_to_the_front_reversed() {
    let mut tl: TaskLoop<u32> = TaskLoop::new(vec![9]);
    let bg = tl
        .handle_task_result::<()>(Ok(vec![(TaskType::Main, 1), (TaskType::Background, 5), (TaskType::Main, 2)]), true)
        .unwrap();
    assert_eq!(bg, vec![5]);
    assert_eq!(tl.background_task_count(), 1);
    let mut order = vec![];
    while let Step::RunMain(t) = tl.next_step() {
        order.push(t);
    }
    assert_eq!(order, vec![2, 1, 9]);
}

#[test]
fn background_results_go_to_the_back() {
    let mut tl: TaskLoop<u32> = TaskLoop::new(vec![9]);
    tl.background_spawned();
    tl.background_finished();
    tl.handle_task_result::<()>(Ok(vec![(TaskType::Main, 1), (TaskType::Main, 2)]), false).unwrap();
    assert_eq!(tl.background_task_count(), 0);
    let mut order = vec![];
    while let Step::RunMain(t) = tl.next_step() {
        order.push(t);
    }
    assert_eq!(order, vec![9, 1, 2]);
}

#[test]
fn binding_events_and_setups() {
    let e = BindingWatchEvent::change(s("/a"));
    assert_eq!(e.kind, "change");
    assert_eq!(e.path, Some(s("/a")));
    let e = BindingWatchEvent::bundle_end(vec![s("m")], s("code"));
    assert_eq!(e.kind, "bundle_end");
    let e = BindingWatchEvent::error(s("boom"));
    assert_eq!(e.error, Some(s("boom")));

    let (o, ig) = native_watcher_setup(JsWatcherOptions {
        aggregate_timeout: Some(7),
        follow_symlinks: None,
        poll_interval: None,
        ignored: Some(vec![]),
    });
    assert_eq!(o.aggregate_timeout, Some(7));
    assert!(!o.follow_symlinks);
    assert!(matches!(ig, FsWatcherIgnored::Nothing));
    let (_, ig) = native_watcher_setup(JsWatcherOptions {
        aggregate_timeout: None,
        follow_symlinks: Some(true),
        poll_interval: Some(3),
        ignored: Some(vec![s(".git")]),
    });
    assert!(matches!(ig, FsWatcherIgnored::Paths(p) if p == vec![s(".git")]));
    let (o, _) = rebuild_watcher_setup();
    assert_eq!(o.aggregate_timeout, Some(100));

    assert_eq!(watch_dir("/proj/src/index.js"), "/proj/src");
    assert_eq!(watch_dir("/"), ".");
}
