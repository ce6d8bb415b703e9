//! Picking the picture of a game among the files of a directory.

use crate::rng::choose_one;
use crate::text::{lowercase_of, to_lowercase};
use vstd::prelude::*;

verus! {

/// What is known of one file of the directory.
#[derive(Debug, PartialEq, Eq)]
pub struct FileEntry {
    /// The path of the file, where its name is valid UTF-8.
    pub path: Option<String>,
    /// What follows the last dot of the file's name, where there is such a
    /// part and it is valid UTF-8.
    pub extension: Option<String>,
}

/// Why no picture was picked.
#[derive(Debug, Clone, Copy, PartialEq, Eq, Structural)]
pub enum PickError {
    /// No file of the directory has the extension of a picture.
    NoImages,
    /// The draw among the pictures came back empty-handed.
    NothingChosen,
    /// The path of the picture that was drawn is not valid UTF-8.
    InvalidUtf8,
}

/// `lower` is one of the extensions of the picture formats that the game
/// reads: png, jpg, jpeg, bmp.
pub open spec fn names_image_format(lower: Seq<char>) -> bool {
    ||| lower == seq!['p', 'n', 'g']
    ||| lower == seq!['j', 'p', 'g']
    ||| lower == seq!['j', 'p', 'e', 'g']
    ||| lower == seq!['b', 'm', 'p']
}

/// The file has an extension that names a picture format, whatever the case
/// of its letters.
pub open spec fn is_image_entry(entry: FileEntry) -> bool {
    entry.extension matches Some(extension) && names_image_format(lowercase_of(extension@))
}

/// Whether `lower` is, letter for letter, the extension of a picture format.
pub fn is_image_format(lower: &String) -> (yes: bool)
    ensures
        yes == names_image_format(lower@),
{
    proof {
        reveal_strlit("png");
        reveal_strlit("jpg");
        reveal_strlit("jpeg");
        reveal_strlit("bmp");
    }
    let png = "png".to_owned();
    let jpg = "jpg".to_owned();
    let jpeg = "jpeg".to_owned();
    let bmp = "bmp".to_owned();
    assert(png@ =~= seq!['p', 'n', 'g']);
    assert(jpg@ =~= seq!['j', 'p', 'g']);
    assert(jpeg@ =~= seq!['j', 'p', 'e', 'g']);
    assert(bmp@ =~= seq!['b', 'm', 'p']);
    *lower == png || *lower == jpg || *lower == jpeg || *lower == bmp
}

/// Whether an extension names a picture format, whatever the case of its
/// letters.
pub fn is_image_extension(extension: &str) -> (yes: bool)
    ensures
        yes == names_image_format(lowercase_of(extension@)),
{
    let lower = to_lowercase(extension);
    is_image_format(&lower)
}

/// `indices` lists, in rising order, the positions of the pictures among
/// `entries`, and nothing else.
pub open spec fn lists_images(entries: Seq<FileEntry>, indices: Seq<usize>) -> bool {
    &&& forall|k: int|
        0 <= k < indices.len() ==> (#[trigger] indices[k]) < entries.len() && is_image_entry(
            entries[indices[k] as int],
        )
    &&& forall|j: int, k: int| 0 <= j < k < indices.len() ==> indices[j] < indices[k]
    &&& forall|i: int|
        0 <= i < entries.len() && is_image_entry(#[trigger] entries[i]) ==> indices.contains(
            i as usize,
        )
}

/// The positions of the pictures among the files, in rising order.
pub fn image_indices(entries: &Vec<FileEntry>) -> (indices: Vec<usize>)
    ensures
        lists_images(entries@, indices@),
{
    let mut indices: Vec<usize> = Vec::new();
    let mut i: usize = 0;
    while i < entries.len()
        invariant
            i <= entries@.len(),
            forall|k: int|
                0 <= k < indices@.len() ==> (#[trigger] indices@[k]) < i && is_image_entry(
                    entries@[indices@[k] as int],
                ),
            forall|j: int, k: int| 0 <= j < k < indices@.len() ==> indices@[j] < indices@[k],
            forall|n: int|
                0 <= n < i && is_image_entry(#[trigger] entries@[n]) ==> indices@.contains(
                    n as usize,
                ),
        decreases entries@.len() - i,
    {
        let is_image = match &entries[i].extension {
            Some(extension) => is_image_extension(extension.as_str()),
            None => false,
        };
        if is_image {
            let ghost before = indices@;
            indices.push(i);
            proof {
                assert forall|n: int|
                    0 <= n < i + 1 && is_image_entry(#[trigger] entries@[n]) implies indices@.contains(
                    n as usize,
                ) by {
                    if n < i {
                        let k = choose|k: int| 0 <= k < before.len() && before[k] == n as usize;
                        assert(indices@[k] == n as usize);
                    } else {
                        assert(indices@[before.len() as int] == n as usize);
                    }
                }
            }
        }
        i += 1;
    }
    indices
}

/// The path of the file that the draw picked: `choice` is that file, or
/// `None` where the draw picked nothing.
pub fn chosen_path(choice: Option<&FileEntry>) -> (path: Result<String, PickError>)
    ensures
        path == (match choice {
            None => Err::<String, PickError>(PickError::NothingChosen),
            Some(entry) => match entry.path {
                None => Err(PickError::InvalidUtf8),
                Some(text) => Ok(text),
            },
        }),
{
    match choice {
        None => Err(PickError::NothingChosen),
        Some(entry) => match &entry.path {
            None => Err(PickError::InvalidUtf8),
            Some(text) => Ok(text.clone()),
        },
    }
}

/// Picks one of the pictures among the files at random and returns its
/// path. Fails where there is no picture, or where the path of the one
/// picked is not valid UTF-8; the draw itself never fails.
pub fn get_random_image_path(entries: &Vec<FileEntry>) -> (path: Result<String, PickError>)
    ensures
        (match path {
            Ok(text) => exists|i: int|
                0 <= i < entries@.len() && is_image_entry(#[trigger] entries@[i]) && entries@[i].path
                    == Some(text),
            Err(PickError::InvalidUtf8) => exists|i: int|
                0 <= i < entries@.len() && is_image_entry(#[trigger] entries@[i])
                    && entries@[i].path is None,
            Err(PickError::NoImages) => forall|i: int|
                0 <= i < entries@.len() ==> !is_image_entry(#[trigger] entries@[i]),
            Err(PickError::NothingChosen) => false,
        }),
{
    let indices = image_indices(entries);
    if indices.len() == 0 {
        proof {
            assert forall|i: int| 0 <= i < entries@.len() implies !is_image_entry(
                #[trigger] entries@[i],
            ) by {
                if is_image_entry(entries@[i]) {
                    assert(indices@.contains(i as usize));
                }
            }
        }
        return Err(PickError::NoImages);
    }
    let mut rng = rand::thread_rng();
    let choice = match choose_one(&indices, &mut rng) {
        Some(index) => {
            proof {
                let k = choose|k: int| 0 <= k < indices@.len() && indices@[k] == *index;
                assert(indices@[k] < entries@.len());
            }
            Some(&entries[*index])
        },
        None => None,
    };
    chosen_path(choice)
}

} // verus!
