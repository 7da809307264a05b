use vstd::prelude::*;

use crate::matrix::{flat_entry, lemma_flat_index, Matrix};

verus! {

/// Bytes before the pixels in an IDX image file: magic, count, rows, cols.
pub const IMAGE_HEADER_LEN: usize = 16;

/// Bytes before the labels in an IDX label file: magic, count.
pub const LABEL_HEADER_LEN: usize = 8;

/// Pixels in one flattened 28 × 28 image.
pub const IMAGE_SIZE: usize = 784;

/// Number of digit classes, and the width of a one-hot row.
pub const CLASSES: usize = 10;

/// What can be wrong with dataset input.
#[derive(Debug, Clone, Copy, PartialEq, Eq, Structural)]
pub enum MnistError {
    /// The file ends before the requested records.
    Truncated,
    /// The label at position `index` is `label`, which is not a digit.
    LabelOutOfRange { index: usize, label: u8 },
}

/// Parses the contents of an IDX image file: skips the header and takes the
/// first `num_of_images` images, one row of `IMAGE_SIZE` raw pixel bytes per
/// image.
///
/// Fails with `Truncated` exactly when the file is shorter than the header
/// plus `num_of_images` images. The header's own fields are not consulted.
pub fn parse_images(file: &[u8], num_of_images: usize) -> (r: Result<Matrix<u8>, MnistError>)
    ensures
        r is Ok <==> file@.len() >= IMAGE_HEADER_LEN + IMAGE_SIZE * num_of_images,
        r matches Ok(m) ==> {
            &&& m.rows() == num_of_images
            &&& m.cols() == IMAGE_SIZE
            &&& m.shaped()
            &&& m@ == file@.subrange(
                IMAGE_HEADER_LEN as int,
                IMAGE_HEADER_LEN + IMAGE_SIZE * num_of_images,
            )
        },
        r matches Err(e) ==> e == MnistError::Truncated,
{
    let len = file.len();
    let end = match num_of_images.checked_mul(IMAGE_SIZE) {
        Some(n) => n.checked_add(IMAGE_HEADER_LEN),
        None => None,
    };
    match end {
        Some(end) if end <= len => {
            let pixels = copy_range(file, IMAGE_HEADER_LEN, end);
            Ok(Matrix::from_parts(num_of_images, IMAGE_SIZE, pixels))
        },
        _ => Err(MnistError::Truncated),
    }
}

/// Parses the contents of an IDX label file: skips the header and takes the
/// first `num_of_labels` label bytes.
///
/// Fails with `Truncated` exactly when the file is shorter than the header
/// plus `num_of_labels` bytes. The labels themselves are not checked here.
pub fn parse_labels(file: &[u8], num_of_labels: usize) -> (r: Result<Vec<u8>, MnistError>)
    ensures
        r is Ok <==> file@.len() >= LABEL_HEADER_LEN + num_of_labels,
        r matches Ok(v) ==> v@ == file@.subrange(
            LABEL_HEADER_LEN as int,
            LABEL_HEADER_LEN + num_of_labels,
        ),
        r matches Err(e) ==> e == MnistError::Truncated,
{
    let len = file.len();
    match num_of_labels.checked_add(LABEL_HEADER_LEN) {
        Some(end) if end <= len => Ok(copy_range(file, LABEL_HEADER_LEN, end)),
        _ => Err(MnistError::Truncated),
    }
}

/// The bytes `s[start..end]`, copied.
fn copy_range(s: &[u8], start: usize, end: usize) -> (r: Vec<u8>)
    requires
        start <= end <= s@.len(),
    ensures
        r@ == s@.subrange(start as int, end as int),
{
    let mut r: Vec<u8> = Vec::new();
    let mut i = start;
    while i < end
        invariant
            start <= i <= end <= s@.len(),
            r@ == s@.subrange(start as int, i as int),
        decreases end - i,
    {
        r.push(s[i]);
        i = i + 1;
        proof {
            assert(r@ =~= s@.subrange(start as int, i as int));
        }
    }
    r
}

/// Every label is a digit.
pub open spec fn labels_valid(labels: Seq<u8>) -> bool {
    forall|i: int| 0 <= i < labels.len() ==> labels[i] < CLASSES
}

/// The one-hot value at column `j` for label `l`.
pub open spec fn onehot_value<T>(l: u8, j: int, zero: T, one: T) -> T {
    if j == l as int {
        one
    } else {
        zero
    }
}

/// Encodes digit labels one-hot: row `i` of the `labels.len() × CLASSES`
/// result holds `one` in column `labels[i]` and `zero` elsewhere.
///
/// Fails exactly when some label is not a digit, naming the first such
/// position and its value.
pub fn label_as_onehot<T: Copy>(label: &[u8], zero: T, one: T) -> (r: Result<Matrix<T>, MnistError>)
    requires
        label@.len() * CLASSES <= usize::MAX,
    ensures
        r is Ok <==> labels_valid(label@),
        r matches Ok(m) ==> {
            &&& m.rows() == label@.len()
            &&& m.cols() == CLASSES
            &&& m.shaped()
            &&& forall|i: int, j: int|
                0 <= i < label@.len() && 0 <= j < CLASSES ==> #[trigger] m.entry(i, j)
                    == onehot_value(label@[i], j, zero, one)
        },
        r matches Err(e) ==> {
            &&& e matches MnistError::LabelOutOfRange { index, label: l }
            &&& index < label@.len()
            &&& l == label@[index as int]
            &&& l >= CLASSES
            &&& forall|i: int| 0 <= i < index ==> label@[i] < CLASSES
        },
{
    let mut data: Vec<T> = Vec::new();
    let mut i: usize = 0;
    while i < label.len()
        invariant
            0 <= i <= label@.len(),
            label@.len() * CLASSES <= usize::MAX,
            forall|i2: int| 0 <= i2 < i ==> label@[i2] < CLASSES,
            data@.len() == i * CLASSES,
            forall|i2: int, j2: int|
                0 <= i2 < i && 0 <= j2 < CLASSES ==> #[trigger] flat_entry(
                    data@,
                    CLASSES as int,
                    i2,
                    j2,
                ) == onehot_value(label@[i2], j2, zero, one),
        decreases label@.len() - i,
    {
        let x = label[i];
        if x as usize >= CLASSES {
            return Err(MnistError::LabelOutOfRange { index: i, label: x });
        }
        let mut j: usize = 0;
        while j < CLASSES
            invariant
                0 <= i < label@.len(),
                x == label@[i as int],
                0 <= j <= CLASSES,
                data@.len() == i * CLASSES + j,
                forall|i2: int, j2: int|
                    0 <= i2 < i && 0 <= j2 < CLASSES ==> #[trigger] flat_entry(
                        data@,
                        CLASSES as int,
                        i2,
                        j2,
                    ) == onehot_value(label@[i2], j2, zero, one),
                forall|j2: int|
                    0 <= j2 < j ==> #[trigger] flat_entry(data@, CLASSES as int, i as int, j2)
                        == onehot_value(x, j2, zero, one),
            decreases CLASSES - j,
        {
            let ghost before = data@;
            if j == x as usize {
                data.push(one);
            } else {
                data.push(zero);
            }
            proof {
                assert forall|i2: int, j2: int|
                    0 <= i2 < i && 0 <= j2 < CLASSES implies #[trigger] flat_entry(
                        data@,
                        CLASSES as int,
                        i2,
                        j2,
                    ) == onehot_value(label@[i2], j2, zero, one) by {
                    lemma_flat_index(i2, j2, i as int, CLASSES as int);
                    assert(flat_entry(data@, CLASSES as int, i2, j2) == flat_entry(
                        before,
                        CLASSES as int,
                        i2,
                        j2,
                    ));
                }
                assert forall|j2: int| 0 <= j2 < j + 1 implies #[trigger] flat_entry(
                    data@,
                    CLASSES as int,
                    i as int,
                    j2,
                ) == onehot_value(x, j2, zero, one) by {
                    if j2 < j {
                        assert(flat_entry(data@, CLASSES as int, i as int, j2) == flat_entry(
                            before,
                            CLASSES as int,
                            i as int,
                            j2,
                        ));
                    }
                }
            }
            j = j + 1;
        }
        i = i + 1;
    }
    Ok(Matrix::from_parts(label.len(), CLASSES, data))
}

} // verus!
