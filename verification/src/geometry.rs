//! Sizes that shape a scan: sector, chunk and progress boundary.

use vstd::prelude::*;

verus! {

/// Bytes in one sector, the unit in which a resume position is given.
pub const SECTOR_SIZE: u64 = 512;

/// Bytes read from every stream in one iteration.
pub const CHUNK_SIZE: usize = 10485760;

/// Distance in bytes between two progress lines.
pub const PROGRESS_BOUNDARY: u64 = 104857600;

/// Bytes in one megabyte, the unit of the progress line.
pub const MEGABYTE: u64 = 1048576;

/// The sizes of a scan as mathematical integers.
pub struct Layout {
    pub sector: int,
    pub chunk: int,
    pub boundary: int,
}

impl Layout {
    /// All sizes are positive and the progress boundary is a whole number of chunks.
    pub open spec fn valid(self) -> bool {
        &&& 0 < self.sector <= u64::MAX
        &&& 0 < self.chunk <= usize::MAX
        &&& 0 < self.boundary <= u64::MAX
        &&& self.boundary % self.chunk == 0
    }

    /// Byte position at which a scan that resumes from `sector` starts.
    pub open spec fn resume_position(self, sector: int) -> int {
        sector * self.sector
    }

    /// A progress line is due for the chunk at `offset`: the offset is a
    /// multiple of the progress boundary.
    pub open spec fn progress_due(self, offset: int) -> bool {
        offset % self.boundary == 0
    }
}

/// The layout with the sizes a scan uses by default.
pub open spec fn standard_layout() -> Layout {
    Layout { sector: 512, chunk: 10485760, boundary: 104857600 }
}

/// Validated sizes of a scan.
#[derive(Clone, Copy, Debug)]
pub struct Geometry {
    sector_size: u64,
    chunk_size: usize,
    progress_boundary: u64,
}

impl View for Geometry {
    type V = Layout;

    closed spec fn view(&self) -> Layout {
        Layout {
            sector: self.sector_size as int,
            chunk: self.chunk_size as int,
            boundary: self.progress_boundary as int,
        }
    }
}

impl Geometry {
    #[verifier::type_invariant]
    spec fn inv(self) -> bool {
        self@.valid()
    }

    /// Sizes of the default scan: 512-byte sectors, 10 MiB chunks, a progress
    /// line every 100 MiB.
    pub fn standard() -> (g: Geometry)
        ensures
            g@ == standard_layout(),
    {
        Geometry {
            sector_size: SECTOR_SIZE,
            chunk_size: CHUNK_SIZE,
            progress_boundary: PROGRESS_BOUNDARY,
        }
    }

    /// Accepts the sizes exactly when they form a valid layout.
    pub fn new(sector_size: u64, chunk_size: usize, progress_boundary: u64) -> (g: Option<Geometry>)
        ensures
            g is Some <==> (Layout {
                sector: sector_size as int,
                chunk: chunk_size as int,
                boundary: progress_boundary as int,
            }).valid(),
            g is Some ==> g.unwrap()@ == (Layout {
                sector: sector_size as int,
                chunk: chunk_size as int,
                boundary: progress_boundary as int,
            }),
    {
        if sector_size == 0 || chunk_size == 0 || progress_boundary == 0 {
            return None;
        }
        if progress_boundary % (chunk_size as u64) != 0 {
            return None;
        }
        Some(Geometry { sector_size, chunk_size, progress_boundary })
    }

    pub fn sector_size(&self) -> (n: u64)
        ensures
            n == self@.sector,
            self@.valid(),
    {
        proof {
            use_type_invariant(self);
        }
        self.sector_size
    }

    pub fn chunk_size(&self) -> (n: usize)
        ensures
            n == self@.chunk,
            self@.valid(),
    {
        proof {
            use_type_invariant(self);
        }
        self.chunk_size
    }

    pub fn progress_boundary(&self) -> (n: u64)
        ensures
            n == self@.boundary,
            self@.valid(),
    {
        proof {
            use_type_invariant(self);
        }
        self.progress_boundary
    }

    /// Tells whether a progress line is due for the chunk at `offset`.
    pub fn progress_due(&self, offset: u64) -> (due: bool)
        ensures
            due == self@.progress_due(offset as int),
    {
        proof {
            use_type_invariant(self);
        }
        offset % self.progress_boundary == 0
    }

    /// Byte position of `sector`, or `None` where it does not fit in 64 bits.
    pub fn resume_position(&self, sector: u64) -> (position: Option<u64>)
        ensures
            self@.valid(),
            match position {
                Some(p) => p == self@.resume_position(sector as int),
                None => self@.resume_position(sector as int) > u64::MAX,
            },
    {
        proof {
            use_type_invariant(self);
        }
        sector.checked_mul(self.sector_size)
    }
}

} // verus!
