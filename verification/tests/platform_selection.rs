use lanes::platform::{
    auto_detect, detect_best_backend, forced_backend, supports, Arch, Backend, CpuFeatures,
    OverrideOutcome,
};

const ALL: CpuFeatures = CpuFeatures { sse2: true, avx2: true, fma: true, avx512f: true };
const NONE: CpuFeatures = CpuFeatures { sse2: false, avx2: false, fma: false, avx512f: false };

#[test]
fn forced_backend_parses_known_names() {
    assert_eq!(forced_backend(Arch::X86_64, "scalar"), Some(Backend::Scalar));
    assert_eq!(forced_backend(Arch::X86_64, " SCALAR "), Some(Backend::Scalar));
    assert_eq!(forced_backend(Arch::X86_64, "sse2"), Some(Backend::Sse2));
    assert_eq!(forced_backend(Arch::X86_64, "avx2"), Some(Backend::Avx2));
    assert_eq!(forced_backend(Arch::X86_64, "AVX512"), Some(Backend::Avx512));
    assert_eq!(forced_backend(Arch::Aarch64, "neon"), Some(Backend::Neon));
}

#[test]
fn forced_backend_ignores_unknown_names() {
    assert_eq!(forced_backend(Arch::X86_64, "cuda"), None);
    assert_eq!(forced_backend(Arch::X86_64, ""), None);
}

#[test]
fn forced_backend_stable_across_calls() {
    let b1 = detect_best_backend(Arch::X86_64, ALL, None);
    let b2 = detect_best_backend(Arch::X86_64, ALL, None);
    assert_eq!(b1, b2);
}

#[test]
fn forced_backend_needs_the_architecture() {
    assert_eq!(forced_backend(Arch::Aarch64, "avx2"), None);
    assert_eq!(forced_backend(Arch::X86_64, "neon"), None);
    assert_eq!(forced_backend(Arch::Wasm32, "wasm"), Some(Backend::Wasm));
    assert_eq!(forced_backend(Arch::Other, "scalar"), Some(Backend::Scalar));
    assert_eq!(forced_backend(Arch::Other, "sse2"), None);
}

#[test]
fn forced_backend_trims_unicode_white_space_and_folds_ascii_case() {
    assert_eq!(forced_backend(Arch::X86_64, "\t\n AvX2 \r\u{3000}"), Some(Backend::Avx2));
    assert_eq!(forced_backend(Arch::X86_64, "\u{a0}Sse2\u{2029}"), Some(Backend::Sse2));
    assert_eq!(forced_backend(Arch::X86_64, "s calar"), None);
    assert_eq!(forced_backend(Arch::X86_64, "scalars"), None);
    assert_eq!(forced_backend(Arch::X86_64, "   "), None);
    // Only ASCII letters fold: the Kelvin sign is not a `k`.
    assert_eq!(forced_backend(Arch::X86_64, "\u{212a}"), None);
}

#[test]
fn supports_gates_each_backend_on_its_features() {
    assert!(supports(Arch::Other, NONE, Backend::Scalar));
    assert!(supports(Arch::X86_64, ALL, Backend::Avx512));
    assert!(!supports(Arch::Aarch64, ALL, Backend::Avx512));
    let avx2_only = CpuFeatures { sse2: true, avx2: true, fma: false, avx512f: false };
    assert!(!supports(Arch::X86_64, avx2_only, Backend::Avx2));
    assert!(supports(Arch::X86_64, avx2_only, Backend::Sse2));
    assert!(supports(Arch::Aarch64, NONE, Backend::Neon));
    assert!(!supports(Arch::X86_64, ALL, Backend::Neon));
    assert!(supports(Arch::Wasm32, NONE, Backend::Wasm));
}

#[test]
fn auto_detect_prefers_the_most_capable_backend() {
    assert_eq!(auto_detect(Arch::X86_64, ALL), Backend::Avx512);
    let no512 = CpuFeatures { avx512f: false, ..ALL };
    assert_eq!(auto_detect(Arch::X86_64, no512), Backend::Avx2);
    let no_fma = CpuFeatures { fma: false, avx512f: false, ..ALL };
    assert_eq!(auto_detect(Arch::X86_64, no_fma), Backend::Sse2);
    assert_eq!(auto_detect(Arch::X86_64, NONE), Backend::Scalar);
    assert_eq!(auto_detect(Arch::Aarch64, NONE), Backend::Neon);
    assert_eq!(auto_detect(Arch::Wasm32, NONE), Backend::Wasm);
    assert_eq!(auto_detect(Arch::Other, ALL), Backend::Scalar);
}

#[test]
fn detect_best_backend_reports_each_override_outcome() {
    assert_eq!(
        detect_best_backend(Arch::X86_64, ALL, None),
        (Backend::Avx512, OverrideOutcome::NotSet)
    );
    assert_eq!(
        detect_best_backend(Arch::X86_64, ALL, Some("sse2")),
        (Backend::Sse2, OverrideOutcome::Honored)
    );
    let sse_only = CpuFeatures { sse2: true, ..NONE };
    assert_eq!(
        detect_best_backend(Arch::X86_64, sse_only, Some("AVX512")),
        (Backend::Sse2, OverrideOutcome::Unsupported)
    );
    assert_eq!(
        detect_best_backend(Arch::X86_64, ALL, Some("cuda")),
        (Backend::Avx512, OverrideOutcome::Unknown)
    );
    assert_eq!(
        detect_best_backend(Arch::Aarch64, NONE, Some(" Scalar")),
        (Backend::Scalar, OverrideOutcome::Honored)
    );
}

#[test]
fn every_backend_name_selects_that_backend() {
    let cases = [
        (Arch::Other, "scalar", Backend::Scalar),
        (Arch::X86_64, "sse2", Backend::Sse2),
        (Arch::X86_64, "avx2", Backend::Avx2),
        (Arch::X86_64, "avx512", Backend::Avx512),
        (Arch::Aarch64, "neon", Backend::Neon),
        (Arch::Wasm32, "wasm", Backend::Wasm),
    ];
    for (arch, name, backend) in cases {
        assert_eq!(forced_backend(arch, name), Some(backend));
        assert_eq!(forced_backend(arch, &name.to_uppercase()), Some(backend));
    }
}

#[test]
fn selected_backend_is_always_supported() {
    for arch in [Arch::X86_64, Arch::Aarch64, Arch::Wasm32, Arch::Other] {
        for bits in 0..16u8 {
            let f = CpuFeatures {
                sse2: bits & 1 != 0,
                avx2: bits & 2 != 0,
                fma: bits & 4 != 0,
                avx512f: bits & 8 != 0,
            };
            for req in [None, Some("avx512"), Some("neon"), Some("scalar"), Some("x")] {
                let (b, _) = detect_best_backend(arch, f, req);
                assert!(supports(arch, f, b));
            }
            assert!(supports(arch, f, Backend::Scalar));
        }
    }
}
