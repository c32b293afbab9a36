//! Backend selection: which SIMD backends exist for an architecture,
//! which of them the running CPU supports, the automatic choice of the
//! best one, and the `LANES_BACKEND`-style override by name.
//!
//! Probing the CPU and reading the environment are left to the caller,
//! which hands in the architecture the crate was built for and the CPU
//! features it found; everything decided from those values is here.
use vstd::prelude::*;

verus! {

/// The instruction-set architecture the library is built for.
#[derive(Clone, Copy, Debug, PartialEq, Eq, Structural)]
pub enum Arch {
    X86_64,
    Aarch64,
    Wasm32,
    Other,
}

/// An execution backend for the kernels.
#[derive(Clone, Copy, Debug, PartialEq, Eq, Structural)]
#[non_exhaustive]
pub enum Backend {
    /// Portable scalar code; always available.
    Scalar,
    /// x86-64 SSE2.
    Sse2,
    /// x86-64 AVX2 together with FMA.
    Avx2,
    /// x86-64 AVX-512F.
    Avx512,
    /// aarch64 NEON.
    Neon,
    /// wasm32 SIMD128.
    Wasm,
}

/// The CPU features that backend selection looks at on x86-64.
#[derive(Clone, Copy, Debug, PartialEq, Eq, Structural)]
pub struct CpuFeatures {
    pub sse2: bool,
    pub avx2: bool,
    pub fma: bool,
    pub avx512f: bool,
}

/// `b` has kernels on architecture `arch`.
pub open spec fn compiled_in(arch: Arch, b: Backend) -> bool {
    match b {
        Backend::Scalar => true,
        Backend::Sse2 | Backend::Avx2 | Backend::Avx512 => arch == Arch::X86_64,
        Backend::Neon => arch == Arch::Aarch64,
        Backend::Wasm => arch == Arch::Wasm32,
    }
}

/// `b` has kernels on `arch` and the CPU can run them: SSE2 needs `sse2`,
/// AVX2 needs `avx2` and `fma`, AVX-512 needs `avx512f`; NEON is part of
/// the aarch64 baseline and SIMD128 of the wasm32 one.
pub open spec fn backend_supported(arch: Arch, f: CpuFeatures, b: Backend) -> bool {
    &&& compiled_in(arch, b)
    &&& match b {
        Backend::Sse2 => f.sse2,
        Backend::Avx2 => f.avx2 && f.fma,
        Backend::Avx512 => f.avx512f,
        _ => true,
    }
}

/// How capable a backend is; automatic selection prefers the highest.
pub open spec fn capability(b: Backend) -> int {
    match b {
        Backend::Scalar => 0,
        Backend::Sse2 => 1,
        Backend::Avx2 => 2,
        Backend::Avx512 => 3,
        Backend::Neon => 1,
        Backend::Wasm => 1,
    }
}

/// The name by which a backend can be requested.
pub open spec fn backend_name(b: Backend) -> Seq<char> {
    match b {
        Backend::Scalar => seq!['s', 'c', 'a', 'l', 'a', 'r'],
        Backend::Sse2 => seq!['s', 's', 'e', '2'],
        Backend::Avx2 => seq!['a', 'v', 'x', '2'],
        Backend::Avx512 => seq!['a', 'v', 'x', '5', '1', '2'],
        Backend::Neon => seq!['n', 'e', 'o', 'n'],
        Backend::Wasm => seq!['w', 'a', 's', 'm'],
    }
}

/// `b` is supported and no supported backend is more capable.
pub open spec fn is_best(arch: Arch, f: CpuFeatures, b: Backend) -> bool {
    &&& backend_supported(arch, f, b)
    &&& forall|c: Backend| #[trigger]
        backend_supported(arch, f, c) ==> capability(c) <= capability(b)
}

/// Automatic selection is determined by the architecture and the CPU
/// features: at most one backend is the best, so the choice never
/// changes between calls on the same machine.
pub proof fn lemma_best_is_unique(arch: Arch, f: CpuFeatures, b1: Backend, b2: Backend)
    requires
        is_best(arch, f, b1),
        is_best(arch, f, b2),
    ensures
        b1 == b2,
{
    assert(capability(b2) <= capability(b1));
    assert(capability(b1) <= capability(b2));
}

/// Each backend is supported exactly when its architecture matches and
/// the CPU has the features that backend's instructions need — SSE2 for
/// SSE2, AVX2 and FMA for AVX2, AVX-512F for AVX-512 — and never depends
/// on the presence or absence of any other feature.
pub proof fn lemma_support_needs_exactly_its_features(arch: Arch, f: CpuFeatures)
    ensures
        backend_supported(arch, f, Backend::Scalar),
        backend_supported(arch, f, Backend::Sse2) <==> arch == Arch::X86_64 && f.sse2,
        backend_supported(arch, f, Backend::Avx2) <==> arch == Arch::X86_64 && f.avx2 && f.fma,
        backend_supported(arch, f, Backend::Avx512) <==> arch == Arch::X86_64 && f.avx512f,
        backend_supported(arch, f, Backend::Neon) <==> arch == Arch::Aarch64,
        backend_supported(arch, f, Backend::Wasm) <==> arch == Arch::Wasm32,
{
}

/// `g` has every feature that `f` has.
pub open spec fn has_all_features_of(g: CpuFeatures, f: CpuFeatures) -> bool {
    &&& f.sse2 ==> g.sse2
    &&& f.avx2 ==> g.avx2
    &&& f.fma ==> g.fma
    &&& f.avx512f ==> g.avx512f
}

/// Support is monotone in the CPU features: a CPU with more features
/// supports every backend that a CPU with fewer supports, so turning on a
/// feature never withdraws support for any backend.
pub proof fn lemma_support_is_monotone(arch: Arch, f: CpuFeatures, g: CpuFeatures, b: Backend)
    requires
        has_all_features_of(g, f),
        backend_supported(arch, f, b),
    ensures
        backend_supported(arch, g, b),
{
}

/// Automatic selection takes AVX-512F when present, then AVX2 with FMA,
/// then SSE2 on x86-64; NEON on aarch64; SIMD128 on wasm32; scalar
/// elsewhere. A backend is chosen only when the CPU has all its features.
pub proof fn lemma_best_backend_order(arch: Arch, f: CpuFeatures, b: Backend)
    requires
        is_best(arch, f, b),
    ensures
        b == Backend::Avx512 <==> arch == Arch::X86_64 && f.avx512f,
        b == Backend::Avx2 <==> arch == Arch::X86_64 && !f.avx512f && f.avx2 && f.fma,
        b == Backend::Sse2 <==> arch == Arch::X86_64 && !f.avx512f && !(f.avx2 && f.fma)
            && f.sse2,
        b == Backend::Scalar <==> (arch == Arch::Other || (arch == Arch::X86_64 && !f.avx512f
            && !(f.avx2 && f.fma) && !f.sse2)),
        b == Backend::Neon <==> arch == Arch::Aarch64,
        b == Backend::Wasm <==> arch == Arch::Wasm32,
        b == Backend::Avx2 ==> f.avx2 && f.fma,
{
    lemma_support_needs_exactly_its_features(arch, f);
    assert(capability(b) >= capability(Backend::Scalar));
    if arch == Arch::X86_64 && f.avx512f {
        assert(capability(Backend::Avx512) <= capability(b));
    } else if arch == Arch::X86_64 && f.avx2 && f.fma {
        assert(capability(Backend::Avx2) <= capability(b));
    } else if arch == Arch::X86_64 && f.sse2 {
        assert(capability(Backend::Sse2) <= capability(b));
    } else if arch == Arch::Aarch64 {
        assert(capability(Backend::Neon) <= capability(b));
    } else if arch == Arch::Wasm32 {
        assert(capability(Backend::Wasm) <= capability(b));
    }
}

/// Whether `backend` is compiled in for `arch` and supported by a CPU with
/// features `features`. A backend must pass this gate before any of its
/// kernels may be run; `Scalar` always passes.
pub fn supports(arch: Arch, features: CpuFeatures, backend: Backend) -> (r: bool)
    ensures
        r == backend_supported(arch, features, backend),
{
    match backend {
        Backend::Scalar => true,
        Backend::Sse2 => arch == Arch::X86_64 && features.sse2,
        Backend::Avx2 => arch == Arch::X86_64 && features.avx2 && features.fma,
        Backend::Avx512 => arch == Arch::X86_64 && features.avx512f,
        Backend::Neon => arch == Arch::Aarch64,
        Backend::Wasm => arch == Arch::Wasm32,
    }
}

/// The best backend for a CPU with features `features`: AVX-512F first,
/// then AVX2 with FMA, then SSE2 on x86-64; NEON on aarch64; SIMD128 on
/// wasm32; scalar elsewhere. The result is supported, and no supported
/// backend is more capable.
pub fn auto_detect(arch: Arch, features: CpuFeatures) -> (r: Backend)
    ensures
        is_best(arch, features, r),
{
    match arch {
        Arch::X86_64 => {
            if features.avx512f {
                Backend::Avx512
            } else if features.avx2 && features.fma {
                Backend::Avx2
            } else if features.sse2 {
                Backend::Sse2
            } else {
                Backend::Scalar
            }
        },
        Arch::Aarch64 => Backend::Neon,
        Arch::Wasm32 => Backend::Wasm,
        Arch::Other => Backend::Scalar,
    }
}

/// The characters Unicode gives the `White_Space` property, the set that
/// `char::is_whitespace` and `str::trim` use.
pub open spec fn is_white_space(c: char) -> bool {
    ||| '\u{9}' <= c <= '\u{d}'
    ||| c == ' '
    ||| c == '\u{85}'
    ||| c == '\u{a0}'
    ||| c == '\u{1680}'
    ||| '\u{2000}' <= c <= '\u{200a}'
    ||| c == '\u{2028}'
    ||| c == '\u{2029}'
    ||| c == '\u{202f}'
    ||| c == '\u{205f}'
    ||| c == '\u{3000}'
}

/// `s` without its leading white space.
pub open spec fn trim_start(s: Seq<char>) -> Seq<char>
    decreases s.len(),
{
    if s.len() > 0 && is_white_space(s[0]) {
        trim_start(s.drop_first())
    } else {
        s
    }
}

/// `s` without its trailing white space.
pub open spec fn trim_end(s: Seq<char>) -> Seq<char>
    decreases s.len(),
{
    if s.len() > 0 && is_white_space(s.last()) {
        trim_end(s.drop_last())
    } else {
        s
    }
}

/// `s` without leading and trailing white space, as `str::trim` returns it.
pub open spec fn trim(s: Seq<char>) -> Seq<char> {
    trim_end(trim_start(s))
}

/// `c` with an ASCII upper-case letter mapped to lower case, as
/// `char::to_ascii_lowercase` does; every other character is unchanged.
pub open spec fn ascii_lower(c: char) -> char {
    if 'A' <= c <= 'Z' {
        ((c as u32) + 32) as char
    } else {
        c
    }
}

/// `s` with every ASCII upper-case letter lowered (`str::to_ascii_lowercase`).
pub open spec fn ascii_lowercase(s: Seq<char>) -> Seq<char> {
    s.map_values(|c: char| ascii_lower(c))
}

proof fn lemma_trim_start_shape(s: Seq<char>) -> (lo: int)
    ensures
        0 <= lo <= s.len(),
        trim_start(s) == s.subrange(lo, s.len() as int),
        forall|i: int| 0 <= i < lo ==> is_white_space(#[trigger] s[i]),
        lo < s.len() ==> !is_white_space(s[lo]),
    decreases s.len(),
{
    if s.len() > 0 && is_white_space(s[0]) {
        let l = lemma_trim_start_shape(s.drop_first());
        assert(s.drop_first().subrange(l, s.drop_first().len() as int) =~= s.subrange(
            l + 1,
            s.len() as int,
        ));
        assert forall|i: int| 0 <= i < l + 1 implies is_white_space(#[trigger] s[i]) by {
            if i > 0 {
                assert(s[i] == s.drop_first()[i - 1]);
            }
        }
        l + 1
    } else {
        assert(s.subrange(0, s.len() as int) =~= s);
        0
    }
}

proof fn lemma_trim_end_shape(s: Seq<char>) -> (hi: int)
    ensures
        0 <= hi <= s.len(),
        trim_end(s) == s.subrange(0, hi),
        forall|i: int| hi <= i < s.len() ==> is_white_space(#[trigger] s[i]),
        hi > 0 ==> !is_white_space(s[hi - 1]),
    decreases s.len(),
{
    if s.len() > 0 && is_white_space(s.last()) {
        let h = lemma_trim_end_shape(s.drop_last());
        assert(s.drop_last().subrange(0, h) =~= s.subrange(0, h));
        assert forall|i: int| h <= i < s.len() implies is_white_space(#[trigger] s[i]) by {
            if i < s.len() - 1 {
                assert(s[i] == s.drop_last()[i]);
            }
        }
        h
    } else {
        assert(s.subrange(0, s.len() as int) =~= s);
        s.len() as int
    }
}

/// Trimming removes exactly the white space at both ends: the result is
/// the stretch of `s` between its first and last non-white-space
/// characters (empty when there are none).
pub proof fn lemma_trim_removes_only_end_white_space(s: Seq<char>)
    ensures
        exists|lo: int, hi: int|
            {
                &&& 0 <= lo <= hi <= s.len()
                &&& trim(s) == s.subrange(lo, hi)
                &&& forall|i: int| 0 <= i < lo ==> is_white_space(#[trigger] s[i])
                &&& forall|i: int| hi <= i < s.len() ==> is_white_space(#[trigger] s[i])
                &&& lo < hi ==> !is_white_space(s[lo]) && !is_white_space(s[hi - 1])
            },
{
    let lo = lemma_trim_start_shape(s);
    let front = s.subrange(lo, s.len() as int);
    let h = lemma_trim_end_shape(front);
    let hi = lo + h;
    assert(front.subrange(0, h) =~= s.subrange(lo, hi));
    assert forall|i: int| hi <= i < s.len() implies is_white_space(#[trigger] s[i]) by {
        assert(s[i] == front[i - lo]);
    }
    if lo < hi {
        assert(s[lo] == front[0]);
        assert(s[hi - 1] == front[h - 1]);
    }
}

/// ASCII lower-casing keeps the length, maps each upper-case ASCII letter
/// to the letter 32 code points above it, and leaves every other
/// character alone.
pub proof fn lemma_ascii_lowercase_shape(s: Seq<char>)
    ensures
        ascii_lowercase(s).len() == s.len(),
        forall|i: int|
            0 <= i < s.len() ==> {
                let c = s[i];
                let l = #[trigger] ascii_lowercase(s)[i];
                &&& ('A' <= c <= 'Z') ==> l as u32 == c as u32 + 32 && 'a' <= l <= 'z'
                &&& !('A' <= c <= 'Z') ==> l == c
            },
{
}

/// Whether `c` is white space (the same value as `char::is_whitespace`).
pub fn is_white_space_char(c: char) -> (r: bool)
    ensures
        r == is_white_space(c),
{
    ('\u{9}' <= c && c <= '\u{d}') || c == ' ' || c == '\u{85}' || c == '\u{a0}' || c
        == '\u{1680}' || ('\u{2000}' <= c && c <= '\u{200a}') || c == '\u{2028}' || c
        == '\u{2029}' || c == '\u{202f}' || c == '\u{205f}' || c == '\u{3000}'
}

/// `c` lowered if it is an ASCII upper-case letter.
pub fn ascii_lower_char(c: char) -> (r: char)
    ensures
        r == ascii_lower(c),
{
    if 'A' <= c && c <= 'Z' {
        let code: u8 = c as u8 + 32;
        code as char
    } else {
        c
    }
}

/// The characters of `raw`, in order.
fn chars_of(raw: &str) -> (r: Vec<char>)
    ensures
        r@ == raw@,
{
    broadcast use vstd::string::group_string_axioms;

    let mut out: Vec<char> = Vec::new();
    for c in it: raw.chars()
        invariant
            out@ == it.seq().take(it.index() as int),
    {
        out.push(c);
    }
    out
}

proof fn lemma_trim_start_skips(s: Seq<char>, lo: int)
    requires
        0 <= lo <= s.len(),
        forall|i: int| 0 <= i < lo ==> is_white_space(#[trigger] s[i]),
    ensures
        trim_start(s) == trim_start(s.subrange(lo, s.len() as int)),
    decreases lo,
{
    if lo > 0 {
        assert(s.drop_first().subrange(lo - 1, s.drop_first().len() as int) =~= s.subrange(
            lo,
            s.len() as int,
        ));
        lemma_trim_start_skips(s.drop_first(), lo - 1);
    } else {
        assert(s.subrange(0, s.len() as int) =~= s);
    }
}

proof fn lemma_trim_end_skips(s: Seq<char>, hi: int)
    requires
        0 <= hi <= s.len(),
        forall|i: int| hi <= i < s.len() ==> is_white_space(#[trigger] s[i]),
    ensures
        trim_end(s) == trim_end(s.subrange(0, hi)),
    decreases s.len() - hi,
{
    if hi < s.len() {
        assert(s.drop_last().subrange(0, hi) =~= s.subrange(0, hi));
        lemma_trim_end_skips(s.drop_last(), hi);
    } else {
        assert(s.subrange(0, hi) =~= s);
    }
}

/// The bounds of `s` with leading and trailing white space removed.
fn trimmed_bounds(s: &Vec<char>) -> (r: (usize, usize))
    ensures
        r.0 <= r.1 <= s@.len(),
        trim(s@) == s@.subrange(r.0 as int, r.1 as int),
{
    let n = s.len();
    let mut lo: usize = 0;
    while lo < n && is_white_space_char(s[lo])
        invariant
            n == s@.len(),
            lo <= n,
            forall|i: int| 0 <= i < lo ==> is_white_space(#[trigger] s@[i]),
        decreases n - lo,
    {
        lo = lo + 1;
    }
    let ghost front = s@.subrange(lo as int, n as int);
    proof {
        lemma_trim_start_skips(s@, lo as int);
        assert(trim_start(front) == front);
    }
    let mut hi: usize = n;
    while hi > lo && is_white_space_char(s[hi - 1])
        invariant
            n == s@.len(),
            lo <= hi <= n,
            forall|i: int| hi <= i < n ==> is_white_space(#[trigger] s@[i]),
        decreases hi - lo,
    {
        hi = hi - 1;
    }
    proof {
        lemma_trim_end_skips(front, hi - lo);
        assert(front.subrange(0, hi - lo) =~= s@.subrange(lo as int, hi as int));
        let t = s@.subrange(lo as int, hi as int);
        if t.len() > 0 {
            assert(t.last() == s@[hi - 1]);
        }
        assert(trim_end(t) == t);
    }
    (lo, hi)
}

/// Whether backend `b` has kernels on `arch`.
fn has_kernels(arch: Arch, b: Backend) -> (r: bool)
    ensures
        r == compiled_in(arch, b),
{
    match b {
        Backend::Scalar => true,
        Backend::Sse2 | Backend::Avx2 | Backend::Avx512 => arch == Arch::X86_64,
        Backend::Neon => arch == Arch::Aarch64,
        Backend::Wasm => arch == Arch::Wasm32,
    }
}

/// The name of backend `b` as characters.
fn name_chars(b: Backend) -> (r: Vec<char>)
    ensures
        r@ == backend_name(b),
{
    let v = match b {
        Backend::Scalar => vec!['s', 'c', 'a', 'l', 'a', 'r'],
        Backend::Sse2 => vec!['s', 's', 'e', '2'],
        Backend::Avx2 => vec!['a', 'v', 'x', '2'],
        Backend::Avx512 => vec!['a', 'v', 'x', '5', '1', '2'],
        Backend::Neon => vec!['n', 'e', 'o', 'n'],
        Backend::Wasm => vec!['w', 'a', 's', 'm'],
    };
    assert(v@ =~= backend_name(b));
    v
}

/// Whether `s[lo..hi]`, lowered, spells the name of `b`.
fn spells_name(s: &Vec<char>, lo: usize, hi: usize, b: Backend) -> (r: bool)
    requires
        lo <= hi <= s@.len(),
    ensures
        r == (ascii_lowercase(s@.subrange(lo as int, hi as int)) == backend_name(b)),
{
    let name = name_chars(b);
    let ghost low = ascii_lowercase(s@.subrange(lo as int, hi as int));
    if hi - lo != name.len() {
        assert(low.len() != backend_name(b).len());
        return false;
    }
    let mut j: usize = 0;
    while j < name.len()
        invariant
            lo <= hi <= s@.len(),
            hi - lo == name@.len(),
            name@ == backend_name(b),
            low == ascii_lowercase(s@.subrange(lo as int, hi as int)),
            j <= name@.len(),
            forall|k: int| 0 <= k < j ==> low[k] == name@[k],
        decreases name@.len() - j,
    {
        if ascii_lower_char(s[lo + j]) != name[j] {
            assert(low[j as int] != name@[j as int]);
            return false;
        }
        j = j + 1;
    }
    assert(low =~= name@);
    true
}

/// The backend that `raw` names, as the `LANES_BACKEND` override reads
/// it: surrounding white space is ignored and ASCII letters match in any
/// case. Unknown names, and names of backends without kernels on `arch`,
/// give `None`, so that the caller falls back to automatic detection.
pub fn forced_backend(arch: Arch, raw: &str) -> (r: Option<Backend>)
    ensures
        r matches Some(b) ==> compiled_in(arch, b) && ascii_lowercase(trim(raw@))
            == backend_name(b),
        r is None ==> forall|b: Backend| #[trigger]
            compiled_in(arch, b) ==> ascii_lowercase(trim(raw@)) != backend_name(b),
{
    let chars = chars_of(raw);
    let (lo, hi) = trimmed_bounds(&chars);
    let candidates: [Backend; 6] = [
        Backend::Scalar,
        Backend::Sse2,
        Backend::Avx2,
        Backend::Avx512,
        Backend::Neon,
        Backend::Wasm,
    ];
    let ghost name = ascii_lowercase(trim(raw@));
    let mut i: usize = 0;
    while i < 6
        invariant
            lo <= hi <= chars@.len(),
            chars@ == raw@,
            trim(chars@) == chars@.subrange(lo as int, hi as int),
            name == ascii_lowercase(trim(raw@)),
            candidates@ == seq![
                Backend::Scalar,
                Backend::Sse2,
                Backend::Avx2,
                Backend::Avx512,
                Backend::Neon,
                Backend::Wasm,
            ],
            i <= 6,
            forall|k: int|
                0 <= k < i ==> !(compiled_in(arch, #[trigger] candidates@[k]) && name
                    == backend_name(candidates@[k])),
        decreases 6 - i,
    {
        let b = candidates[i];
        if has_kernels(arch, b) && spells_name(&chars, lo, hi, b) {
            return Some(b);
        }
        i = i + 1;
    }
    assert forall|b: Backend| #[trigger] compiled_in(arch, b) implies name != backend_name(b) by {
        match b {
            Backend::Scalar => assert(candidates@[0] == b),
            Backend::Sse2 => assert(candidates@[1] == b),
            Backend::Avx2 => assert(candidates@[2] == b),
            Backend::Avx512 => assert(candidates@[3] == b),
            Backend::Neon => assert(candidates@[4] == b),
            Backend::Wasm => assert(candidates@[5] == b),
        }
    }
    None
}

/// Distinct backends have distinct names, so a name requests at most one
/// backend.
pub proof fn lemma_backend_names_distinct(b1: Backend, b2: Backend)
    requires
        backend_name(b1) == backend_name(b2),
    ensures
        b1 == b2,
{
    let n1 = backend_name(b1);
    let n2 = backend_name(b2);
    if b1 != b2 {
        assert(n1.len() != n2.len() || n1[0] != n2[0] || n1[1] != n2[1] || n1[2] != n2[2]
            || n1[3] != n2[3]);
    }
}

/// Every backend's own name reads back as itself: it has no surrounding
/// white space and no upper-case letters. Together with the contract of
/// [`forced_backend`] and [`lemma_backend_names_distinct`], requesting a
/// backend by its name selects exactly that backend whenever it has
/// kernels on the architecture.
pub proof fn lemma_backend_name_is_normalized(b: Backend)
    ensures
        ascii_lowercase(trim(backend_name(b))) == backend_name(b),
{
    let s = backend_name(b);
    assert(!is_white_space(s[0]));
    assert(trim_start(s) == s);
    assert(s.len() > 0 && !is_white_space(s.last()));
    assert(trim_end(s) == s);
    assert(ascii_lowercase(s) =~= s);
}

/// The scalar backend passes the support gate on every architecture and
/// CPU, so selection always has a backend to fall back to.
pub proof fn lemma_scalar_always_supported(arch: Arch, f: CpuFeatures)
    ensures
        backend_supported(arch, f, Backend::Scalar),
{
}

/// What became of a requested backend override.
#[derive(Clone, Copy, Debug, PartialEq, Eq, Structural)]
pub enum OverrideOutcome {
    /// No override was requested.
    NotSet,
    /// The named backend is supported and was selected.
    Honored,
    /// The name is known, but the backend is not supported here.
    Unsupported,
    /// The name matches no backend of this architecture.
    Unknown,
}

/// The backend to run on: the one that `requested` (the value of the
/// `LANES_BACKEND` override, if set) names when it is supported, and the
/// automatically detected best backend otherwise. The outcome tells the
/// caller why an override was ignored. The result is always supported.
pub fn detect_best_backend(arch: Arch, features: CpuFeatures, requested: Option<&str>) -> (r: (
    Backend,
    OverrideOutcome,
))
    ensures
        backend_supported(arch, features, r.0),
        r.1 == OverrideOutcome::Honored ==> (requested matches Some(raw) && ascii_lowercase(
            trim(raw@),
        ) == backend_name(r.0)),
        r.1 != OverrideOutcome::Honored ==> is_best(arch, features, r.0),
        requested is None <==> r.1 == OverrideOutcome::NotSet,
        requested matches Some(raw) ==> (r.1 == OverrideOutcome::Unknown <==> forall|b: Backend|
            #[trigger] compiled_in(arch, b) ==> ascii_lowercase(trim(raw@)) != backend_name(b)),
        requested matches Some(raw) ==> (r.1 == OverrideOutcome::Unsupported <==> exists|
            b: Backend,
        |
            #[trigger] compiled_in(arch, b) && ascii_lowercase(trim(raw@)) == backend_name(b)
                && !backend_supported(arch, features, b)),
{
    let detected = auto_detect(arch, features);
    match requested {
        None => (detected, OverrideOutcome::NotSet),
        Some(raw) => match forced_backend(arch, raw) {
            Some(b) => {
                proof {
                    assert forall|c: Backend|
                        #[trigger] compiled_in(arch, c) && ascii_lowercase(trim(raw@))
                            == backend_name(c) implies c == b by {
                        lemma_backend_names_distinct(b, c);
                    }
                }
                if supports(arch, features, b) {
                    (b, OverrideOutcome::Honored)
                } else {
                    (detected, OverrideOutcome::Unsupported)
                }
            },
            None => (detected, OverrideOutcome::Unknown),
        },
    }
}

} // verus!
