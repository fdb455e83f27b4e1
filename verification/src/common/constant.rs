use vstd::prelude::*;

verus! {

/// Layout of a matrix in memory.
#[derive(Debug, Clone, Copy, PartialEq, Eq, Structural)]
pub enum CBlasOrder {
    RowMajor,
    ColMajor,
}

pub type CBlasLayout = CBlasOrder;

/// Whether a matrix operand is transposed.
#[derive(Debug, Clone, Copy, PartialEq, Eq, Structural)]
pub enum CBlasTranspose {
    NoTrans,
    Trans,
    ConjTrans,
    ConjNoTrans,
}

/// Which triangle of a matrix is referenced.
#[derive(Debug, Clone, Copy, PartialEq, Eq, Structural)]
pub enum CBlasUpLo {
    Upper,
    Lower,
}

/// Whether a triangular matrix has a unit diagonal.
#[derive(Debug, Clone, Copy, PartialEq, Eq, Structural)]
pub enum CBlasDiag {
    NonUnit,
    Unit,
}

/// On which side a matrix operand is applied.
#[derive(Debug, Clone, Copy, PartialEq, Eq, Structural)]
pub enum CBlasSide {
    Left,
    Right,
}

impl CBlasOrder {
    /// The integer by which the C interface names this layout.
    pub open spec fn spec_code(self) -> int {
        match self {
            CBlasOrder::RowMajor => 101,
            CBlasOrder::ColMajor => 102,
        }
    }

    pub fn code(self) -> (r: i32)
        ensures
            r == self.spec_code(),
    {
        match self {
            CBlasOrder::RowMajor => 101,
            CBlasOrder::ColMajor => 102,
        }
    }

    /// The layout that `code` names, if any.
    pub fn from_code(code: i32) -> (r: Option<Self>)
        ensures
            match r {
                Some(v) => v.spec_code() == code,
                None => code != 101 && code != 102,
            },
    {
        if code == 101 {
            Some(CBlasOrder::RowMajor)
        } else if code == 102 {
            Some(CBlasOrder::ColMajor)
        } else {
            None
        }
    }
}

impl CBlasTranspose {
    /// The integer by which the C interface names this flag.
    pub open spec fn spec_code(self) -> int {
        match self {
            CBlasTranspose::NoTrans => 111,
            CBlasTranspose::Trans => 112,
            CBlasTranspose::ConjTrans => 113,
            CBlasTranspose::ConjNoTrans => 114,
        }
    }

    pub fn code(self) -> (r: i32)
        ensures
            r == self.spec_code(),
    {
        match self {
            CBlasTranspose::NoTrans => 111,
            CBlasTranspose::Trans => 112,
            CBlasTranspose::ConjTrans => 113,
            CBlasTranspose::ConjNoTrans => 114,
        }
    }

    /// The flag that `code` names, if any.
    pub fn from_code(code: i32) -> (r: Option<Self>)
        ensures
            match r {
                Some(v) => v.spec_code() == code,
                None => code < 111 || code > 114,
            },
    {
        if code == 111 {
            Some(CBlasTranspose::NoTrans)
        } else if code == 112 {
            Some(CBlasTranspose::Trans)
        } else if code == 113 {
            Some(CBlasTranspose::ConjTrans)
        } else if code == 114 {
            Some(CBlasTranspose::ConjNoTrans)
        } else {
            None
        }
    }
}

impl CBlasUpLo {
    /// The integer by which the C interface names this flag.
    pub open spec fn spec_code(self) -> int {
        match self {
            CBlasUpLo::Upper => 121,
            CBlasUpLo::Lower => 122,
        }
    }

    pub fn code(self) -> (r: i32)
        ensures
            r == self.spec_code(),
    {
        match self {
            CBlasUpLo::Upper => 121,
            CBlasUpLo::Lower => 122,
        }
    }

    /// The flag that `code` names, if any.
    pub fn from_code(code: i32) -> (r: Option<Self>)
        ensures
            match r {
                Some(v) => v.spec_code() == code,
                None => code != 121 && code != 122,
            },
    {
        if code == 121 {
            Some(CBlasUpLo::Upper)
        } else if code == 122 {
            Some(CBlasUpLo::Lower)
        } else {
            None
        }
    }
}

impl CBlasDiag {
    /// The integer by which the C interface names this flag.
    pub open spec fn spec_code(self) -> int {
        match self {
            CBlasDiag::NonUnit => 131,
            CBlasDiag::Unit => 132,
        }
    }

    pub fn code(self) -> (r: i32)
        ensures
            r == self.spec_code(),
    {
        match self {
            CBlasDiag::NonUnit => 131,
            CBlasDiag::Unit => 132,
        }
    }

    /// The flag that `code` names, if any.
    pub fn from_code(code: i32) -> (r: Option<Self>)
        ensures
            match r {
                Some(v) => v.spec_code() == code,
                None => code != 131 && code != 132,
            },
    {
        if code == 131 {
            Some(CBlasDiag::NonUnit)
        } else if code == 132 {
            Some(CBlasDiag::Unit)
        } else {
            None
        }
    }
}

impl CBlasSide {
    /// The integer by which the C interface names this flag.
    pub open spec fn spec_code(self) -> int {
        match self {
            CBlasSide::Left => 141,
            CBlasSide::Right => 142,
        }
    }

    pub fn code(self) -> (r: i32)
        ensures
            r == self.spec_code(),
    {
        match self {
            CBlasSide::Left => 141,
            CBlasSide::Right => 142,
        }
    }

    /// The flag that `code` names, if any.
    pub fn from_code(code: i32) -> (r: Option<Self>)
        ensures
            match r {
                Some(v) => v.spec_code() == code,
                None => code != 141 && code != 142,
            },
    {
        if code == 141 {
            Some(CBlasSide::Left)
        } else if code == 142 {
            Some(CBlasSide::Right)
        } else {
            None
        }
    }
}

} // verus!
