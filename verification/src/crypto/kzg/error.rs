//! Error types shared by KZG operations.
use vstd::prelude::*;



verus! {

/// KZG operation failures.
#[derive(Debug, Clone, Copy, PartialEq, Eq)]
#[non_exhaustive]
pub enum KzgError {
    /// Polynomial has more coefficients than the trusted-setup G1 powers cover.
    PolynomialTooLarge {
        /// Polynomial coefficient count requested by the operation.
        coefficients: usize,
        /// Number of G1 powers available in the setup.
        setup_powers: usize,
    },

    /// FK opening was requested on an empty polynomial.
    EmptyPolynomial,

    /// FK evaluation domain size does not match the polynomial length.
    DomainSizeMismatch {
        /// Polynomial coefficient count.
        coefficients: usize,
        /// Radix-2 evaluation domain size.
        domain_size: usize,
    },

    /// Doubling the polynomial length to derive the FK domain overflowed `usize`.
    DomainSizeOverflow {
        /// Polynomial coefficient count that overflowed the doubled domain.
        coefficients: usize,
    },

    /// The scalar field does not support a radix-2 domain of the requested size.
    UnsupportedDomainSize(usize),

    /// Serialized scalar is outside the BLS scalar field.
    InvalidFieldElement,

    /// Serialized compressed G1 point is not a valid KZG point.
    InvalidG1,

    /// Batch input lists have different lengths.
    BatchLengthMismatch {
        /// Number of commitments.
        commitments: usize,
        /// Number of cell indices.
        cell_indices: usize,
        /// Number of cells.
        cells: usize,
        /// Number of proofs.
        proofs: usize,
    },

    /// Two paired slices have different lengths.
    LengthMismatch {
        /// Static context for the paired inputs.
        context: &'static str,
        /// Expected length.
        expected: usize,
        /// Actual length.
        got: usize,
    },

    /// Cell index exceeds the extended blob domain.
    CellIndexOutOfRange {
        /// Cell index supplied by the caller.
        index: u64,
        /// Exclusive upper bound.
        limit: usize,
    },

    /// Commitment index exceeds the deduplicated commitment list.
    CommitmentIndexOutOfRange {
        /// Commitment index supplied by the caller.
        index: u64,
        /// Number of commitments.
        commitments: usize,
    },

    /// A cell or cell-derived byte sequence has the wrong byte length.
    InvalidCellLength {
        /// Expected byte length.
        expected: usize,
        /// Actual byte length.
        got: usize,
    },

    /// A cell coset has the wrong number of field elements.
    InvalidCosetLength {
        /// Expected field-element count.
        expected: usize,
        /// Actual field-element count.
        got: usize,
    },

    /// A blob has the wrong byte length.
    InvalidBlobLength {
        /// Expected byte length.
        expected: usize,
        /// Actual byte length.
        got: usize,
    },

    /// Recovery was asked to run with fewer than half of all cells.
    NotEnoughCells {
        /// Minimum number of cells.
        minimum: usize,
        /// Actual number of cells.
        got: usize,
    },

    /// Recovery was asked to run with more than all cells.
    TooManyCells {
        /// Maximum number of cells.
        maximum: usize,
        /// Actual number of cells.
        got: usize,
    },

    /// Recovery input repeated a cell index.
    DuplicateCellIndex {
        /// Repeated cell index.
        index: u64,
    },

    /// Recovery input cell indices are not sorted ascending.
    CellIndicesNotSorted,

    /// Polynomial division was given an empty divisor.
    EmptyDivisor,

    /// Polynomial division was given a divisor with zero leading coefficient.
    DivisionByZero,

    /// Coset division found a zero divisor.
    CosetDivisionByZero,

    /// The interpolation domain contained a duplicate point.
    DuplicateInterpolationPoint,

    /// The setup does not include the requested G2 power.
    MissingG2Power {
        /// Requested G2 power index.
        index: usize,
        /// Number of G2 powers available.
        available: usize,
    },

    /// Parsed commitment bytes and points do not have the same length.
    CommitmentBytesLengthMismatch {
        /// Serialized commitment count.
        bytes: usize,
        /// Parsed commitment point count.
        points: usize,
    },

    /// Parsed commitment bytes do not decode to the supplied point.
    CommitmentBytesPointMismatch {
        /// Deduplicated commitment index.
        index: usize,
    },
}

/// Trusted-setup parsing failures.
#[derive(Debug, Clone, Copy, PartialEq, Eq)]
#[non_exhaustive]
pub enum SetupFileError {
    /// Required `[tau]_2` point is missing.
    MissingTauG2,

    /// Text setup is not UTF-8.
    InvalidUtf8 {
        /// Number of valid bytes before the invalid sequence.
        valid_up_to: usize,
        /// Length of the invalid sequence when known.
        error_len: Option<usize>,
    },

    /// Text setup has the wrong number of non-empty lines.
    InvalidTextLineCount {
        /// Expected number of non-empty lines.
        expected: usize,
        /// Actual number of non-empty lines.
        got: usize,
    },

    /// Text setup count line is not a decimal integer.
    InvalidTextCount {
        /// One-based line number.
        line: usize,
    },

    /// Text setup count line exceeded `usize`.
    TextCountOverflow {
        /// One-based line number.
        line: usize,
    },

    /// A compressed point hex line has the wrong length.
    InvalidHexLength {
        /// One-based line number.
        line: usize,
        /// Expected hex-character count.
        expected: usize,
        /// Actual hex-character count.
        got: usize,
    },

    /// A compressed point hex line contains a non-hex character.
    InvalidHexCharacter {
        /// One-based line number.
        line: usize,
        /// Invalid character.
        value: char,
    },

    /// Curve point parsing failed on a G1 setup line.
    InvalidG1Point {
        /// One-based line number.
        line: usize,
    },

    /// Curve point parsing failed on a G2 setup line.
    InvalidG2Point {
        /// One-based line number.
        line: usize,
    },

    /// Size arithmetic overflowed.
    SizeOverflow,
}


/// Ensure the setup has enough G1 powers for `coefficients` polynomial terms.
pub fn ensure_supported(coefficients: usize, setup_powers: usize) -> (r: Result<(), KzgError>)
    ensures
        coefficients <= setup_powers ==> r is Ok,
        coefficients > setup_powers ==> r == Err::<(), KzgError>(
            KzgError::PolynomialTooLarge { coefficients, setup_powers },
        ),
{
    if coefficients > setup_powers {
        return Err(KzgError::PolynomialTooLarge { coefficients, setup_powers });
    }
    Ok(())
}

} // verus!
