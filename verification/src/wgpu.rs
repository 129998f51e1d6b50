//! A graphics backend that draws nothing.
use vstd::prelude::*;

verus! {

#[derive(Debug, Clone, Copy, PartialEq, Eq)]
pub struct WgpuLoading {}

#[derive(Debug, Clone, Copy, PartialEq, Eq)]
pub struct Wgpu {}

/// The part of the backend that any thread may use.
#[derive(Debug, Clone, Copy, PartialEq, Eq)]
pub struct WgpuBackendMt {}

/// What memory is allocated for. Sizes are positive.
#[derive(Debug, Clone, Copy, PartialEq, Eq, Structural)]
pub enum MemoryAllocationType {
    TextureRgbaU8 { width: usize, height: usize },
    TextureRgbaU82dArray { width: usize, height: usize, depth: usize },
    Buffer { required_size: usize },
}

/// Memory together with what it is for.
#[derive(Debug, Clone, PartialEq, Eq)]
pub struct BackendMemory {
    pub mem: Vec<u8>,
    pub usage: MemoryAllocationType,
}

/// The bytes that an allocation takes. Colours take four bytes.
pub open spec fn allocation_size(ty: MemoryAllocationType) -> int {
    match ty {
        MemoryAllocationType::TextureRgbaU8 { width, height } => width * height * 4,
        MemoryAllocationType::TextureRgbaU82dArray { width, height, depth } => width * height
            * depth * 4,
        MemoryAllocationType::Buffer { required_size } => required_size as int,
    }
}

fn product(a: usize, b: usize) -> (r: usize)
    requires
        a * b <= usize::MAX,
    ensures
        r == a * b,
{
    a * b
}

proof fn lemma_partial_products(a: int, b: int, c: int)
    requires
        a >= 0,
        b >= 0,
        c > 0,
    ensures
        a * b <= a * b * c,
{
    assert(a * b <= a * b * c) by (nonlinear_arith)
        requires
            a >= 0,
            b >= 0,
            c > 0,
    ;
}

/// Allocates zeroed memory.
pub fn mem_alloc_lazy(ty: MemoryAllocationType) -> (r: BackendMemory)
    requires
        allocation_size(ty) <= usize::MAX,
        ty matches MemoryAllocationType::TextureRgbaU82dArray { width, height, depth } ==> depth
            > 0,
    ensures
        r.usage == ty,
        r.mem@ == Seq::new(allocation_size(ty) as nat, |i: int| 0u8),
{
    let size: usize = match ty {
        MemoryAllocationType::TextureRgbaU8 { width, height } => {
            proof {
                lemma_partial_products(width as int, height as int, 4);
            }
            product(product(width, height), 4)
        },
        MemoryAllocationType::TextureRgbaU82dArray { width, height, depth } => {
            proof {
                lemma_partial_products(width as int, height as int, depth as int);
                lemma_partial_products(width * height, depth as int, 4);
                assert(width * height * depth >= 0) by (nonlinear_arith)
                    requires
                        width >= 0,
                        height >= 0,
                        depth >= 0,
                ;
            }
            product(product(product(width, height), depth), 4)
        },
        MemoryAllocationType::Buffer { required_size } => required_size,
    };
    let mut mem: Vec<u8> = Vec::new();
    mem.resize(size, 0);
    assert(mem@ =~= Seq::new(allocation_size(ty) as nat, |i: int| 0u8));
    BackendMemory { mem, usage: ty }
}

impl Wgpu {
    /// The part of the backend that any thread may use.
    pub fn get_mt_backend() -> (r: WgpuBackendMt)
        ensures
            r == (WgpuBackendMt {  }),
    {
        WgpuBackendMt {  }
    }
}

impl WgpuBackendMt {
    /// Allocates zeroed memory.
    pub fn mem_alloc(&self, ty: MemoryAllocationType) -> (r: BackendMemory)
        requires
            allocation_size(ty) <= usize::MAX,
            ty matches MemoryAllocationType::TextureRgbaU82dArray { width, height, depth }
                ==> depth > 0,
        ensures
            r.usage == ty,
            r.mem@ == Seq::new(allocation_size(ty) as nat, |i: int| 0u8),
    {
        mem_alloc_lazy(ty)
    }

    /// Flushing is not supported: the answer is always an error.
    pub fn try_flush_mem(&self, mem: &BackendMemory) -> (r: Result<(), FlushError>)
        ensures
            r == Err::<(), FlushError>(FlushError::NotSupported),
    {
        Err(FlushError::NotSupported)
    }
}

/// Why memory is not flushed.
#[derive(Debug, Clone, Copy, PartialEq, Eq, Structural)]
pub enum FlushError {
    NotSupported,
}

/// Memory is allocated for what it was asked for, zeroed: four bytes for each
/// pixel of a texture, the size of a buffer otherwise.
pub proof fn memory_is_zeroed_and_fits(
    b: &WgpuBackendMt,
    ty: MemoryAllocationType,
    lazy: BackendMemory,
    r: BackendMemory,
)
    requires
        call_ensures(mem_alloc_lazy, (ty,), lazy),
        call_ensures(WgpuBackendMt::mem_alloc, (b, ty), r),
        r.mem@.len() <= usize::MAX,
    ensures
        r.usage == ty,
        lazy.usage == ty,
        r.mem@ == lazy.mem@,
        forall|i: int| 0 <= i < r.mem@.len() ==> #[trigger] r.mem@[i] == 0,
        ty matches MemoryAllocationType::Buffer { required_size } ==> r.mem@.len()
            == required_size,
        ty matches MemoryAllocationType::TextureRgbaU8 { width, height } ==> r.mem@.len() == 4 * (
        width * height),
        ty matches MemoryAllocationType::TextureRgbaU82dArray { width, height, depth }
            ==> r.mem@.len() == 4 * (width * height * depth),
{
    match ty {
        MemoryAllocationType::TextureRgbaU8 { width, height } => {
            assert(width * height >= 0) by (nonlinear_arith)
                requires
                    width >= 0,
                    height >= 0,
            ;
        },
        MemoryAllocationType::TextureRgbaU82dArray { width, height, depth } => {
            assert(width * height * depth >= 0) by (nonlinear_arith)
                requires
                    width >= 0,
                    height >= 0,
                    depth >= 0,
            ;
        },
        MemoryAllocationType::Buffer { required_size } => {},
    }
}

/// No memory can be flushed.
pub proof fn memory_is_never_flushed(
    b: &WgpuBackendMt,
    mem: &BackendMemory,
    r: Result<(), FlushError>,
)
    requires
        call_ensures(WgpuBackendMt::try_flush_mem, (b, mem), r),
    ensures
        r is Err,
{
}

} // verus!
