//! What the kernel's files say.
use heft::caps;
use heft::caps::Caps;
use heft::cpu;
use heft::glyph;
use heft::glyph::GlyphSet;
use heft::gpu;
use heft::io;
use heft::mem;
use heft::mem::GpuPool;
use heft::proc;
use heft::proc::{Passwd, Rollup};
use heft::psi;
use heft::root;
use heft::types::{ExecMark, GpuCounters, HostHeader, HostTree, Process, Share};

// ---------------------------------------------------------------------------
// Terminal answers
// ---------------------------------------------------------------------------

#[test]
fn a_kitty_terminal_answers_ok() {
    let c = caps::parse_reply("\x1b_Gi=4919;OK\x1b\\\x1b[?62;22c");
    assert!(c.kitty);
    assert!(!c.sixel, "62 and 22 are not sixel");
}

#[test]
fn sixel_is_attribute_four() {
    let c = caps::parse_reply("\x1b[?62;4;6;9;22c");
    assert!(c.sixel);
    assert!(!c.kitty);
    // A terminal with both answers both.
    let c = caps::parse_reply("\x1b_Gi=4919;OK\x1b\\\x1b[?62;4;22c");
    assert!(c.kitty && c.sixel);
    // 14 and 44 contain a 4 but are not one.
    let c = caps::parse_reply("\x1b[?62;14;44;22c");
    assert!(!c.sixel, "the attribute is the whole field, not a substring");
}

#[test]
fn a_refusal_is_not_a_capability() {
    let c = caps::parse_reply("\x1b_Gi=4919;ENOTSUPPORTED:no graphics\x1b\\\x1b[?62;22c");
    assert!(!c.kitty);
    assert_eq!(caps::parse_reply(""), Caps::default(), "no answer is no support");
    assert_eq!(caps::parse_reply("\x1b[?62;22c"), Caps::default());
}

#[test]
fn the_read_ends_on_the_device_attributes_reply() {
    assert!(!caps::done(""));
    assert!(!caps::done("\x1b_Gi=4919;OK\x1b\\"), "graphics reply alone is not the end");
    assert!(!caps::done("\x1b[?62;4"), "a partial attribute list is not the end");
    assert!(caps::done("\x1b[?62;4;22c"));
    assert!(caps::done("\x1b_Gi=4919;OK\x1b\\\x1b[?62;22c"));
}

// ---------------------------------------------------------------------------
// CPU
// ---------------------------------------------------------------------------

#[test]
fn host_cpu_line() {
    let a = cpu::parse_host_cpu("cpu  10 0 10 80 0 0 0 0 0 0").unwrap();
    let b = cpu::parse_host_cpu("cpu  20 0 20 80 0 0 0 0 0 0").unwrap();
    let s = cpu::host_split(&a, &b);
    let busy = s.busy as f64 / s.whole as f64 * 100.0;
    assert!((busy - 100.0).abs() < 0.01);
}

#[test]
fn counter_reset_keeps_busy_at_one_machine() {
    // idle resets to 0 while user and system each jump a full dt
    let a = cpu::parse_host_cpu("cpu  100 0 100 100 0 0 0 0").unwrap();
    let b = cpu::parse_host_cpu("cpu  200 0 200 0 0 0 0 0").unwrap();
    let s = cpu::host_split(&a, &b);
    let pct = |n: u64| n as f64 / s.whole as f64 * 100.0;
    assert!((pct(s.user) - 100.0).abs() < 0.01);
    assert!((pct(s.system) - 100.0).abs() < 0.01);
    assert!((pct(s.busy) - 100.0).abs() < 0.01);
}

#[test]
fn host_cpu_split_user_sys_wait() {
    let a = cpu::parse_host_cpu("cpu  100 10 50 800 40 5 5 0").unwrap();
    let b = cpu::parse_host_cpu("cpu  200 20 100 850 90 10 10 0").unwrap();
    let s = cpu::host_split(&a, &b);
    let dt = 270.0;
    let pct = |n: u64| n as f64 / s.whole as f64 * 100.0;
    assert!((pct(s.user) - 110.0 / dt * 100.0).abs() < 0.01);
    assert!((pct(s.system) - 60.0 / dt * 100.0).abs() < 0.01);
    assert!((pct(s.wait) - 50.0 / dt * 100.0).abs() < 0.01);
    assert!((pct(s.busy) - (pct(s.user) + pct(s.system) + pct(s.wait))).abs() < 0.01);
    assert_eq!((s.user, s.system, s.wait, s.busy, s.whole), (110, 60, 50, 220, 270));
}

fn shares_pct(v: &Option<Vec<Share>>) -> Option<f64> {
    v.as_ref().map(|s| s.iter().map(|x| x.part as f64 / x.whole as f64 * 100.0).sum())
}

#[test]
fn xe_engine_pct_is_a_cycle_ratio_not_a_wall_clock_rate() {
    let consts = HostHeader { nproc: 8, clk_tck: 100, page_size: 4096 };
    let sample = |busy: u64, stamp: u64| Process {
        gpu: GpuCounters {
            gfx_cycles: Some(busy),
            total_cycles: Some(stamp),
            ..GpuCounters::default()
        },
        ..Process::default()
    };
    // 250 busy cycles while the clock advanced 1000: a quarter of the engine,
    // whatever the gap between the two samples was.
    let (a, b) = (sample(1_000, 5_000), sample(1_250, 6_000));
    for gap in [50_000_000u64, 5_000_000_000] {
        let m = cpu::process_metrics(Some(&a), &b, gap, &consts, 0, 0);
        assert!((shares_pct(&m.gfx).unwrap() - 25.0).abs() < 1e-9, "{:?}", m.gfx);
    }
    // A clock that did not advance is blank, never zero.
    let m = cpu::process_metrics(Some(&a), &sample(1_250, 5_000), 1_000_000_000, &consts, 0, 0);
    assert_eq!(m.gfx, None);
    // A driver that counts nanoseconds keeps them with cycle fields present.
    let mut ns = b;
    ns.gpu.gfx_ns = Some(500_000_000);
    let mut ns_prev = a;
    ns_prev.gpu.gfx_ns = Some(0);
    let m = cpu::process_metrics(Some(&ns_prev), &ns, 1_000_000_000, &consts, 0, 0);
    assert!((shares_pct(&m.gfx).unwrap() - 50.0).abs() < 1e-9, "{:?}", m.gfx);
}

#[test]
fn age_is_starttime_against_boot_not_the_epoch() {
    let boot = 1_000_000;
    // 500 ticks at 100 Hz = 5s after boot, read 65s after boot.
    assert_eq!(cpu::age_secs(Some(500), 100, boot, boot + 65), Some(60));
    assert_eq!(cpu::age_secs(Some(0), 100, boot, boot + 60), Some(60));
    // A blank is not an age of zero.
    assert_eq!(cpu::age_secs(Some(500), 100, 0, boot), None);
    assert_eq!(cpu::age_secs(Some(500), 0, boot, boot), None);
    assert_eq!(cpu::age_secs(None, 100, boot, boot), None);
    // A clock stepped backwards makes a process 0s old, never negative.
    assert_eq!(cpu::age_secs(Some(6000), 100, boot, boot + 10), Some(0));
}

#[test]
fn guest_fields_do_not_inflate_total() {
    let c = cpu::parse_host_cpu("cpu  10 0 10 80 0 0 0 0 50 25").unwrap();
    assert_eq!(c.user, 10);
    assert_eq!(c.total, 100);
}

#[test]
fn a_stat_file_gives_the_count_and_the_boot_time() {
    let stat = "cpu  1 2 3 4\ncpu0 1 2 3 4\ncpu1 1 2 3 4\nintr 5\nbtime 1700000000\n";
    assert_eq!(cpu::nproc(stat), 2);
    assert_eq!(cpu::btime(stat), 1_700_000_000);
    assert_eq!(cpu::btime("cpu 1\n"), 0);
}

// ---------------------------------------------------------------------------
// Glyphs
// ---------------------------------------------------------------------------

#[test]
fn legacy_keeps_the_bars_and_drops_only_the_spark_ramp() {
    let set = GlyphSet::default();
    assert_eq!(set, GlyphSet::Unicode);
    assert_eq!(glyph::full(set), '█');
    assert_eq!(glyph::quad_a(set), '▀', "a half block, not a quadrant");
    assert_eq!(glyph::spark_ramp(set)[0], '▁');
    let missing = ['▁', '▂', '▃', '▅', '▆', '▇'];
    for c in [glyph::full(set), glyph::quad_a(set), glyph::quad_b(set), glyph::rule(set)] {
        assert!(!missing.contains(&c), "{c} is a step a legacy font lacks");
    }
    assert_eq!(
        glyph::spark_ramp(set).iter().filter(|c| missing.contains(c)).count(),
        6,
        "six of the eight steps are what Legacy exists for"
    );
    assert_eq!(glyph::full(GlyphSet::Legacy), '█');
    assert_eq!(glyph::spark_ramp(GlyphSet::Legacy), glyph::spark_ramp(GlyphSet::Ascii));
}

#[test]
fn only_a_utf8_charmap_earns_the_block_characters() {
    for name in ["en_US.UTF-8", "en_US.utf8", "C.UTF-8", "en_GB.UTF-8@euro"] {
        assert_eq!(glyph::charmap_set(name), GlyphSet::Unicode, "{name}");
    }
    for name in ["C", "POSIX", "en_US", "en_US.ISO-8859-1", "ru_RU.KOI8-R"] {
        assert_eq!(glyph::charmap_set(name), GlyphSet::Ascii, "{name}");
    }
}

#[test]
fn the_first_variable_that_is_set_decides() {
    assert_eq!(glyph::init(None, Some(""), None, Some("C.UTF-8")), GlyphSet::Unicode);
    assert_eq!(glyph::init(None, Some("C"), None, Some("C.UTF-8")), GlyphSet::Ascii);
    assert_eq!(glyph::init(None, None, None, None), GlyphSet::Ascii);
    assert_eq!(glyph::init(Some(GlyphSet::Legacy), Some("C"), None, None), GlyphSet::Legacy);
}

// ---------------------------------------------------------------------------
// Graphics
// ---------------------------------------------------------------------------

const SAMPLE: &str = "drm-driver:\tamdgpu\ndrm-client-id:\t27\ndrm-resident-vram:\t48596 KiB\ndrm-resident-gtt:\t100 KiB\ndrm-engine-gfx:\t1000 ns\n";

const I915_SAMPLE: &str = "drm-driver:\ti915\ndrm-client-id:\t14\ndrm-pdev:\t0000:00:02.0\ndrm-total-system0:\t8192 KiB\ndrm-shared-system0:\t0\ndrm-resident-system0:\t6144 KiB\ndrm-engine-render:\t2000 ns\ndrm-engine-capacity-render:\t1\ndrm-engine-compute:\t500 ns\n";

const XE_SAMPLE: &str = "drm-driver:\txe\ndrm-client-id:\t3\ndrm-pdev:\t0000:03:00.0\ndrm-total-gtt:\t192 KiB\ndrm-resident-gtt:\t192 KiB\ndrm-total-vram0:\t23992 KiB\ndrm-resident-vram0:\t23992 KiB\ndrm-cycles-rcs:\t28257900\ndrm-total-cycles-rcs:\t7655183225\n";

#[test]
fn a_line_without_a_colon_does_not_lose_the_client() {
    let mut text = SAMPLE.to_string();
    text.insert_str(0, "not a key value line\n");
    let g = gpu::merge_fdinfo_texts(&vec![text]);
    assert_eq!(g.vram_bytes, Some(48596 * 1024));
    assert_eq!(g.gtt_bytes, Some(100 * 1024));
    assert_eq!(g.gfx_ns, Some(1000));
}

#[test]
fn i915_keys_map_onto_the_amdgpu_shape() {
    let g = gpu::merge_fdinfo_texts(&vec![I915_SAMPLE.to_string()]);
    assert_eq!(g.gtt_bytes, Some(6144 * 1024));
    assert_eq!(g.vram_bytes, None, "integrated Intel has no discrete VRAM");
    assert_eq!(g.gfx_ns, Some(2000));
    assert_eq!(g.compute_ns, Some(500));
}

#[test]
fn xe_maps_memory_but_has_no_ns_engine_counter() {
    let g = gpu::merge_fdinfo_texts(&vec![XE_SAMPLE.to_string()]);
    assert_eq!(g.vram_bytes, Some(23992 * 1024));
    assert_eq!(g.gtt_bytes, Some(192 * 1024));
    assert_eq!(g.gfx_ns, None, "drm-cycles-rcs is not nanoseconds");
    assert_eq!(g.compute_ns, None);
}

fn xe_tick(rcs: u64, ccs: u64, stamp: u64) -> String {
    format!(
        "drm-driver:\txe\ndrm-client-id:\t3\ndrm-resident-gtt:\t192 KiB\n\
         drm-cycles-rcs:\t{rcs}\ndrm-total-cycles-rcs:\t{stamp}\n\
         drm-cycles-ccs:\t{ccs}\ndrm-total-cycles-ccs:\t{stamp}\n\
         drm-engine-capacity-ccs:\t4\n"
    )
}

#[test]
fn xe_cycles_divide_by_capacity_and_keep_one_device_clock() {
    let g = gpu::merge_fdinfo_texts(&vec![xe_tick(400, 4000, 9_000)]);
    assert_eq!(g.gfx_cycles, Some(400), "rcs capacity is 1");
    assert_eq!(g.compute_cycles, Some(1000), "4 ccs instances, one clock");
    assert_eq!(g.total_cycles, Some(9_000));
    // Two clients on one device: busy cycles add, the clock does not.
    let mut two = xe_tick(400, 4000, 9_000);
    two.push_str("drm-client-id:\t4\n");
    let g = gpu::merge_fdinfo_texts(&vec![xe_tick(400, 4000, 9_000), two]);
    assert_eq!(g.gfx_cycles, Some(800));
    assert_eq!(g.total_cycles, Some(9_000));
}

const AMDGPU_LEGACY: &str = "drm-driver:\tamdgpu\ndrm-client-id:\t550\ndrm-memory-vram:\t23048 KiB\ndrm-memory-gtt: \t80128 KiB\ndrm-memory-cpu: \t0 KiB\namd-evicted-vram:\t59648 KiB\namd-requested-vram:\t82696 KiB\ndrm-shared-vram:\t8 KiB\ndrm-shared-gtt:\t5632 KiB\ndrm-engine-gfx:\t301893603834 ns\ndrm-engine-compute:\t31641274970 ns\n";

#[test]
fn legacy_amdgpu_memory_keys_are_not_blank() {
    let g = gpu::merge_fdinfo_texts(&vec![AMDGPU_LEGACY.to_string()]);
    assert_eq!(g.vram_bytes, Some(23048 * 1024));
    assert_eq!(g.gtt_bytes, Some(80128 * 1024));
    assert_eq!(g.gfx_ns, Some(301_893_603_834));
    assert_eq!(g.compute_ns, Some(31_641_274_970));
}

#[test]
fn resident_beats_total_beats_memory() {
    let text = "drm-driver:\tamdgpu\ndrm-client-id:\t7\n\
         drm-total-vram:\t117088 KiB\ndrm-resident-vram:\t180 KiB\n\
         drm-memory-vram:\t999 KiB\ndrm-total-gtt:\t22572 KiB\n\
         drm-memory-gtt: \t139480 KiB\ndrm-total-cpu:\t5 KiB\n";
    let g = gpu::merge_fdinfo_texts(&vec![text.to_string()]);
    assert_eq!(g.vram_bytes, Some(180 * 1024), "resident wins");
    assert_eq!(g.gtt_bytes, Some(22572 * 1024), "no resident-gtt, total wins");
    // A zero resident figure is a figure, not a reason to fall through.
    let zero = "drm-driver:\tamdgpu\ndrm-client-id:\t8\n\
         drm-resident-vram:\t0\ndrm-total-vram:\t4096 KiB\n";
    assert_eq!(gpu::merge_fdinfo_texts(&vec![zero.to_string()]).vram_bytes, Some(0));
}

#[test]
fn dedupe_client_id() {
    let texts = vec![SAMPLE.to_string(), SAMPLE.to_string()];
    let g = gpu::merge_fdinfo_texts(&texts);
    assert_eq!(g.vram_bytes, Some(48596 * 1024));
    assert_eq!(g.gfx_ns, Some(1000));
}

#[test]
fn dri_symlink_prefilter_still_dedupes_client_id() {
    assert!(gpu::fd_target_looks_like_drm("/dev/dri/renderD128"));
    assert!(gpu::fd_target_looks_like_drm("/dev/dri/card1"));
    assert!(!gpu::fd_target_looks_like_drm("/dev/null"));
    assert!(!gpu::fd_target_looks_like_drm("socket:[1]"));
    let texts: Vec<String> = ["/dev/dri/renderD128", "/dev/null", "/dev/dri/card1"]
        .into_iter()
        .filter(|t| gpu::fd_target_looks_like_drm(t))
        .map(|_| SAMPLE.to_string())
        .collect();
    assert_eq!(texts.len(), 2);
    let g = gpu::merge_fdinfo_texts(&texts);
    assert_eq!(g.vram_bytes, Some(48596 * 1024));
    assert_eq!(g.gfx_ns, Some(1000));
}

#[test]
fn full_fdinfo_only_when_asked_and_prefilter_empty() {
    let empty = GpuCounters::default();
    let live = GpuCounters { vram_bytes: Some(1), ..GpuCounters::default() };
    assert!(!gpu::needs_full_fdinfo(false, true, &empty));
    assert!(!gpu::needs_full_fdinfo(false, false, &live));
    assert!(!gpu::needs_full_fdinfo(true, true, &empty));
    assert!(!gpu::needs_full_fdinfo(true, true, &live));
    assert!(!gpu::needs_full_fdinfo(true, false, &live));
    // Names were found but they yielded no metrics.
    assert!(gpu::needs_full_fdinfo(true, false, &empty));
}

#[test]
fn a_descriptor_is_a_number_and_a_client_names_its_driver() {
    assert_eq!(gpu::fd_num(b"17"), Some(17));
    assert_eq!(gpu::fd_num(b".."), None);
    assert!(gpu::is_drm_text(SAMPLE));
    assert!(!gpu::is_drm_text("pos:\t0\nflags:\t02\n"));
}

// ---------------------------------------------------------------------------
// Memory and disk
// ---------------------------------------------------------------------------

#[test]
fn io_and_pss() {
    let (r, w) = io::parse_io("rchar: 1\nread_bytes: 10\nwrite_bytes: 20\n");
    assert_eq!(r, Some(10));
    assert_eq!(w, Some(20));
    assert_eq!(io::parse_pss_kb("Rss: 9 kB\nPss:  42 kB\n"), Some(42));
}

#[test]
fn swap_pss_is_not_swap_and_not_pss() {
    let text = "Pss: 42 kB\nSwap: 900 kB\nSwapPss: 100 kB\n";
    assert_eq!(io::parse_swap_pss_kb(text), Some(100));
    assert_eq!(io::parse_pss_kb(text), Some(42));
    assert_eq!(io::parse_swap_pss_kb("Pss: 42 kB\n"), None);
}

#[test]
fn a_trailing_slash_never_doubles_the_separator() {
    for given in ["/mnt/tree", "/mnt/tree/", "/mnt/tree///"] {
        assert_eq!(format!("{}/proc/stat", root::trimmed(given)), "/mnt/tree/proc/stat");
    }
    assert_eq!(format!("{}/proc/stat", root::trimmed("")), "/proc/stat");
    let prefix = root::init(Some("/mnt/tree/"));
    assert_eq!(root::path(&prefix, "/proc/stat"), "/mnt/tree/proc/stat");
    assert_eq!(root::path(&root::init(None), "/proc/stat"), "/proc/stat");
}

#[test]
fn meminfo_used() {
    let ram = mem::parse_meminfo(
        "MemTotal: 1000 kB\nMemAvailable: 400 kB\nBuffers: 10 kB\nCached: 50 kB\nSwapCached: 7 kB\nShmem: 20 kB\nShmemHugePages: 9 kB\nSReclaimable: 5 kB\nAnonPages: 30 kB\nSUnreclaim: 3 kB\nPageTables: 2 kB\nSecPageTables: 99 kB\nKernelStack: 1 kB\nSwapTotal: 800 kB\nSwapFree: 300 kB\n",
    );
    assert_eq!(ram.mem_total_bytes, 1000 * 1024);
    assert_eq!(ram.mem_used_bytes, 600 * 1024);
    assert_eq!(ram.mem_buffers_bytes, 10 * 1024);
    assert_eq!(ram.mem_cached_bytes, 50 * 1024);
    assert_eq!(ram.mem_shmem_bytes, 20 * 1024);
    assert_eq!(ram.mem_sreclaimable_bytes, 5 * 1024);
    assert_eq!(ram.mem_anon_bytes, 30 * 1024);
    // SecPageTables is a different line that merely ends in the same name.
    assert_eq!(ram.mem_kernel_bytes, 6 * 1024);
    assert_eq!(ram.swap_total_bytes, 800 * 1024);
    assert_eq!(ram.swap_used_bytes, 500 * 1024);
}

#[test]
fn swapless_meminfo_is_zero_not_garbage() {
    let ram = mem::parse_meminfo("MemTotal: 1000 kB\nSwapTotal: 0 kB\nSwapFree: 0 kB\n");
    assert_eq!(ram.swap_total_bytes, 0);
    assert_eq!(ram.swap_used_bytes, 0);
}

#[test]
fn unified_when_gtt_covers_ram() {
    let gpu = GpuPool {
        vram_total: Some(512 * 1024 * 1024),
        gtt_total: Some(120 * 1024 * 1024 * 1024),
        ..GpuPool::default()
    };
    assert!(mem::is_unified(125 * 1024 * 1024 * 1024, &gpu));
}

#[test]
fn discrete_vram_is_not_a_carve_out() {
    let gpu = GpuPool {
        vram_total: Some(12 * 1024 * 1024 * 1024),
        gtt_total: Some(4 * 1024 * 1024 * 1024),
        ..GpuPool::default()
    };
    assert!(!mem::is_unified(32 * 1024 * 1024 * 1024, &gpu));
}

#[test]
fn zram_mm_stat_third_field_is_ram_used() {
    assert_eq!(mem::zram_used("4096 1024 8192 0 8192 0 0 0 0\n"), Some(8192));
    assert_eq!(mem::zram_used("0 0 0 0 0 0 0 0 0"), Some(0));
    assert_eq!(mem::zram_used("garbage"), None);
}

// The parts are vram 0, gtt 1, zram 2, shmem 3, kernel 4, anon 5, other 6,
// cache 7, slab 8, buffers 9.
fn inside(s: &[u64; 10]) -> u64 {
    s[..7].iter().sum()
}

#[test]
fn clip_gpu_when_vram_gtt_exceed_used() {
    let s = mem::clip_used(100, 200, [80, 50, 40, 10, 5, 20], [30, 5, 1]);
    assert_eq!(s, [80, 20, 0, 0, 0, 0, 0, 30, 5, 1]);
    assert_eq!(inside(&s), 100);
}

#[test]
fn clip_zram_shmem_kernel_anon_after_gpu() {
    let s = mem::clip_used(100, 200, [10, 10, 60, 15, 50, 40], [0; 3]);
    assert_eq!(s[2..7], [60, 15, 5, 0, 0]);
}

#[test]
fn clip_never_exceeds_memtotal() {
    let s = mem::clip_used(500, 100, [40, 30, 20, 10, 0, 0], [50, 0, 0]);
    assert_eq!(inside(&s), 100);
    assert_eq!((s[6], s[7]), (0, 0));
    let s = mem::clip_used(60, 100, [0; 6], [30, 20, 5]);
    assert_eq!(s[6..], [60, 30, 10, 0]);
}

#[test]
fn clip_other_is_the_unitemised_rest() {
    let s = mem::clip_used(100, 200, [5, 15, 20, 10, 8, 30], [0; 3]);
    assert_eq!((s[5], s[6]), (30, 12));
    assert_eq!(inside(&s), 100);
}

#[test]
fn cards_add_up_and_partitions_of_zram_are_found() {
    assert!(mem::is_card("card0"));
    assert!(!mem::is_card("card0-DP-1"));
    assert!(mem::is_zram("zram0"));
    assert!(!mem::is_zram("sda"));
    assert_eq!(mem::lone_number("4096\n"), Some(4096));
    assert_eq!(mem::lone_number("x"), None);
    let card = GpuPool { vram_used: Some(3), vram_total: Some(10), ..GpuPool::default() };
    let mut pool = GpuPool::default();
    pool.add_card(&card);
    pool.add_card(&card);
    assert_eq!((pool.vram_used, pool.vram_total), (Some(6), Some(20)));
    assert_eq!(mem::zram_total(&vec!["1 2 4096 0".to_string(), "1 2 4 0".to_string()]), 4100);
}

// ---------------------------------------------------------------------------
// Processes
// ---------------------------------------------------------------------------

#[test]
fn identity_rereads_while_young_on_an_exec_and_every_fifth_walk() {
    let prev = Process {
        pid: 10,
        comm: "bash".into(),
        exe: Some("/usr/bin/bash".into()),
        ..Default::default()
    };
    let bash = |walks| proc::carries_identity(&prev, walks, "bash", Some("/usr/bin/bash"));
    assert!((0..proc::IDENTITY_EVERY).all(|w| !bash(w)));
    let carried = (5..15).filter(|&w| bash(w)).count();
    assert_eq!(carried, 8);
    assert!(!proc::carries_identity(&prev, 6, "bash", Some("/usr/bin/sleep")));
    assert!(!proc::carries_identity(&prev, 6, "sleep", Some("/usr/bin/bash")));
}

#[test]
fn stat_with_spaces_in_comm() {
    let mut tail = String::from("10 (my app) S 1 10 10 0 0 0 0 0 0 0 30 40");
    for _ in 0..20 {
        tail.push_str(" 0");
    }
    let p = proc::parse_stat(tail.as_bytes()).unwrap();
    assert_eq!(p.comm, "my app");
    assert_eq!(p.ppid, 1);
    assert_eq!(p.pgrp, 10);
    assert_eq!(p.utime, 30);
    assert_eq!(p.stime, 40);
    assert!(!p.kthread);
    assert!(!p.d_state);
}

#[test]
fn threads_and_starttime_come_from_their_own_fields() {
    let stat = "10 (bash) S 1 10 10 0 -1 4194304 91 0 0 0 30 40 0 0 25 5 17 0 221093059 236335104 474 \
         18446744073709551615 94000000000000 94000000100000 140730000000000";
    let p = proc::parse_stat(stat.as_bytes()).unwrap();
    assert_eq!(p.utime, 30);
    assert_eq!(p.threads, Some(17));
    assert_eq!(p.starttime_ticks, Some(221_093_059));
    assert_eq!(
        p.exec_mark,
        ExecMark {
            start_code: 94_000_000_000_000,
            end_code: 94_000_000_100_000,
            start_stack: 140_730_000_000_000,
        }
    );
    // A truncated tail costs those two columns, not the process.
    let short = proc::parse_stat(b"10 (bash) S 1 10 10 0 -1 0 0 0 0 0 30 40").unwrap();
    assert_eq!(short.utime, 30);
    assert_eq!(short.threads, None);
    assert_eq!(short.starttime_ticks, None);
}

#[test]
fn kthread_flag_from_stat() {
    let mut tail = String::from("10 (kworker/0:0) S 2 0 0 0 0 2097152 0 0 0 0 1 2");
    for _ in 0..20 {
        tail.push_str(" 0");
    }
    let p = proc::parse_stat(tail.as_bytes()).unwrap();
    assert!(p.kthread);
    assert_eq!(p.ppid, 2);
}

#[test]
fn a_name_that_is_not_utf8_is_kept() {
    let mut stat = b"10 (\xff\xfehidden) D 1 10 10 0 0 0 0 0 0 0 30 40".to_vec();
    stat.extend_from_slice(b" 0 0");
    let p = proc::parse_stat(&stat).unwrap();
    assert_eq!(p.comm, "\u{fffd}\u{fffd}hidden");
    assert!(p.d_state);
}

#[test]
fn pss_due_first_then_interval() {
    let start = 1_000_000_000u64;
    let sec = 1_000_000_000u64;
    let five = 5 * sec;
    assert!(proc::pss_due(None, start, five));
    assert!(!proc::pss_due(Some(start), start, five));
    assert!(!proc::pss_due(Some(start), start + 4 * sec, five));
    assert!(proc::pss_due(Some(start), start + five, five));
}

#[test]
fn passwd_never_matches_an_empty_name() {
    let pw = Passwd {
        text: String::from("::7:7::/:/bin/false\nroot:x:0:0:root:/root:/bin/sh\n"),
    };
    assert_eq!(pw.uid(""), None);
    assert_eq!(pw.name(7), "7");
    assert_eq!(pw.uid("root"), Some(0));
    assert_eq!(pw.name(0), "root");
    assert_eq!(proc::uid_for("4242", &pw), Some(4242), "a bare number is never refused");
    assert_eq!(proc::uid_for("nobody", &pw), None);
}

#[test]
fn atoi_takes_digits_only_and_blanks_on_overflow() {
    assert_eq!(proc::atoi(b"0"), Some(0));
    assert_eq!(proc::atoi(b"18446744073709551615"), Some(u64::MAX));
    assert_eq!(proc::atoi(b"18446744073709551616"), None);
    assert_eq!(proc::atoi(b""), None);
    assert_eq!(proc::atoi(b"-1"), None);
    assert_eq!(proc::atoi(b"12kB"), None);
}

#[test]
fn field_u64_takes_first_token_and_blanks_on_failure() {
    let field = |line: &str, key: &str| proc::field_u64(line.as_bytes(), key);
    assert_eq!(field("MemTotal:  1000 kB", "MemTotal:"), Some(1000));
    assert_eq!(field("read_bytes: 10", "read_bytes:"), Some(10));
    assert_eq!(field("Uid:\t1000\t1000\t1000\t1000", "Uid:"), Some(1000));
    // An unreadable metric must stay blank, never fall back to 0.
    assert_eq!(field("Pss: kB", "Pss:"), None);
    assert_eq!(field("Pss_Anon: 4 kB", "Pss:"), None);
    assert_eq!(field("Rss: 9 kB", "Pss:"), None);
}

fn unread() -> (Option<u64>, Option<u64>) {
    unreachable!("a carried tick reads no rollup")
}

#[test]
fn carried_pss_skips_kthread_and_new_pids() {
    let carried = Process {
        pss_kb: Some(12),
        swap_pss_kb: Some(3),
        starttime_ticks: Some(7),
        ..Process::default()
    };
    let now = (Some(7), None);
    assert_eq!(
        proc::rollup_for(false, false, true, Some(&carried), now, 4096, unread),
        Rollup::default()
    );
    let kept = proc::rollup_for(false, false, false, Some(&carried), now, 4096, unread);
    assert_eq!((kept.pss_kb, kept.swap_pss_kb), (Some(12), Some(3)));
    assert_eq!(
        proc::rollup_for(false, false, false, Some(&carried), (Some(8), None), 4096, unread),
        Rollup::default(),
        "a reused pid"
    );
    assert_eq!(
        proc::rollup_for(false, false, false, None, now, 4096, unread),
        Rollup::default()
    );
}

#[test]
fn rollup_holds_within_one_percent_or_a_mebibyte_for_six_periods() {
    let prev = Process {
        starttime_ticks: Some(7),
        rollup_rss_pages: Some(100_000),
        ..Process::default()
    };
    let holds =
        |p: &Process, start, rss| proc::rollup_holds(p, start, Some(rss), false, 4096);
    assert!(holds(&prev, Some(7), 101_000));
    assert!(holds(&prev, Some(7), 99_000));
    assert!(!holds(&prev, Some(7), 101_001));
    assert!(!holds(&prev, Some(8), 100_000), "a new process");
    let swapped = Process { pss_kb: Some(12), swap_pss_kb: Some(3), ..prev.clone() };
    assert!(proc::rollup_holds(&swapped, Some(7), Some(100_000), true, 4096));
    assert!(!proc::rollup_holds(&swapped, Some(7), Some(100_000), false, 4096), "swapoff");
    let read = Process { pss_kb: Some(12), ..prev.clone() };
    assert!(!proc::rollup_holds(&read, Some(7), Some(100_000), true, 4096), "swapon");
    assert!(
        proc::rollup_holds(&prev, Some(7), Some(100_000), true, 4096),
        "an unreadable rollup carries whatever swap is"
    );
    let small = Process { rollup_rss_pages: Some(1_000), ..prev.clone() };
    assert!(holds(&small, Some(7), 1_256), "1 MiB is 256 pages");
    assert!(!holds(&small, Some(7), 1_257));
    let fifth = Process { rollup_periods: 4, ..prev.clone() };
    assert!(holds(&fifth, Some(7), 100_000));
    let sixth = Process { rollup_periods: 5, ..prev.clone() };
    assert!(!holds(&sixth, Some(7), 100_000), "six periods since the read");
    // 4 GiB is eight scale units, so 48 periods; 64 GiB hits the cap.
    let big = |pages, periods| Process {
        rollup_rss_pages: Some(pages),
        rollup_periods: periods,
        ..prev.clone()
    };
    assert!(holds(&big(1 << 20, 46), Some(7), 1 << 20));
    assert!(!holds(&big(1 << 20, 47), Some(7), 1 << 20));
    assert!(holds(&big(1 << 24, 58), Some(7), 1 << 24));
    assert!(!holds(&big(1 << 24, 59), Some(7), 1 << 24));
    let reused = proc::rollup_for(
        true,
        false,
        false,
        Some(&fifth),
        (Some(7), Some(100_000)),
        4096,
        unread,
    );
    assert_eq!(reused.periods, 5);
    let read = proc::rollup_for(
        true,
        false,
        false,
        Some(&sixth),
        (Some(7), Some(100_500)),
        4096,
        || (Some(1), None),
    );
    assert_eq!(
        read,
        Rollup { pss_kb: Some(1), swap_pss_kb: None, rss_pages: Some(100_500), periods: 0 }
    );
}

#[test]
fn a_process_is_described_by_what_the_kernel_says() {
    let pw = Passwd { text: String::from("me:x:1000:1000::/home/me:/bin/sh\n") };
    let status = "Name:\tbash\nPPid:\t1\nUid:\t1000\t1000\t1000\t1000\n";
    let d = proc::detail(
        7,
        status,
        "0::/user.slice",
        "/usr/bin/bash",
        &vec!["bash".to_string(), "-l".to_string()],
        &pw,
    );
    let value = |k: &str| d.iter().find(|(n, _)| n == k).map(|(_, v)| v.clone());
    assert_eq!(value("CMDLINE").as_deref(), Some("bash -l"));
    assert_eq!(value("EXE").as_deref(), Some("/usr/bin/bash"));
    assert!(value("CGROUP").is_some());
}

#[test]
fn the_command_line_and_the_path_are_cleaned() {
    assert_eq!(proc::strip_deleted("/usr/bin/x (deleted)"), "/usr/bin/x");
    assert_eq!(proc::strip_deleted("/usr/bin/x"), "/usr/bin/x");
    assert_eq!(proc::parse_cmdline(b"a\0b c\0"), vec!["a".to_string(), "b c".to_string()]);
    assert_eq!(proc::parse_rss_pages("100 25 3\n"), Some(25));
    assert_eq!(proc::kernel_threads("0.00 0.01 0.05 2/345 6789\n"), Some(345));
    assert_eq!(proc::parse_uid(b"Name:\tx\nUid:\t7\t8\t9\t9\n"), Some(7));
}

#[test]
fn a_header_takes_the_machine_s_figures() {
    let c = HostHeader { nproc: 8, clk_tck: 100, page_size: 4096 };
    let a = cpu::parse_host_cpu("cpu  100 10 50 800 40 5 5 0").unwrap();
    let b = cpu::parse_host_cpu("cpu  200 20 100 850 90 10 10 0").unwrap();
    let ram = mem::parse_meminfo("MemTotal: 1000 kB\nMemAvailable: 400 kB\n");
    let gpu = GpuPool { vram_total: Some(10), ..GpuPool::default() };
    let h: HostTree = cpu::header_from(&c, &a, &b, &ram, &gpu, 42, Some(345));
    assert_eq!((h.sampled_at, h.kernel_threads, h.nproc), (42, Some(345), 8));
    assert_eq!(h.mem_used_bytes, 600 * 1024);
    assert_eq!(h.vram_total_bytes, Some(10));
    assert_eq!(h.cpu.busy, 220);
}

// ---------------------------------------------------------------------------
// Pressure
// ---------------------------------------------------------------------------

const PRESSURE: &str = "some avg10=1.25 avg60=0.40 avg300=0.00 total=9656812688\nfull avg10=0.00 avg60=0.00 avg300=0.00 total=12\n";

#[test]
fn parses_the_some_line_and_never_the_full_one() {
    assert_eq!(psi::parse_some(PRESSURE, "total=").as_deref(), Some("9656812688"));
    assert_eq!(psi::parse_some(PRESSURE, "avg10=").as_deref(), Some("1.25"));
}

#[test]
fn the_root_cgroup_is_not_a_row() {
    assert_eq!(psi::cgroup_path("0::/"), None);
    assert_eq!(
        psi::cgroup_path("0::/user.slice/user-1000.slice").as_deref(),
        Some("/user.slice/user-1000.slice")
    );
}

#[test]
fn a_recreated_cgroup_discards_the_interval_instead_of_going_negative() {
    let prev = psi::Totals { cpu: 1_000_000, io: 0, mem: 0 };
    let after_restart = psi::Totals { cpu: 5, io: 0, mem: 0 };
    let sec = 1_000_000_000u64;
    assert!(psi::delta(Some(&prev), after_restart, sec).is_none());
    assert!(psi::delta(None, prev, sec).is_none(), "no baseline, no rate");
    // Half a second of stall in a one-second interval is 50%.
    let cur = psi::Totals { cpu: 1_500_000, io: 0, mem: 0 };
    let s = psi::delta(Some(&prev), cur, sec).expect("a forward counter yields a rate");
    assert!((s.cpu as f64 * 1000.0 / sec as f64 * 100.0 - 50.0).abs() < 1e-9, "{}", s.cpu);
}

#[test]
fn a_further_text_of_a_known_client_changes_nothing() {
    let other = "drm-driver:\tamdgpu\ndrm-client-id:\t27\ndrm-resident-vram:\t9 KiB\n".to_string();
    let alone = gpu::merge_fdinfo_texts(&vec![SAMPLE.to_string(), I915_SAMPLE.to_string()]);
    for v in [
        vec![SAMPLE.to_string(), other.clone(), I915_SAMPLE.to_string()],
        vec![SAMPLE.to_string(), I915_SAMPLE.to_string(), other],
    ] {
        assert_eq!(gpu::merge_fdinfo_texts(&v), alone);
    }
}
