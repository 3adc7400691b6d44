//! Loading the slices of a path.
//!
//! The files of a path are gone through in the order in which they were
//! met. The frame of a DICOM object is added to what has been gathered; a
//! NIfTI volume takes the place of it, so that of several volumes only the
//! last one is kept, with the frames that come after it. What has been
//! gathered is then put in display order.

use vstd::prelude::*;
use crate::ordering::{
    follows, is_ordering_of, is_rearrangement, order_slices, ordered_by,
};
use crate::slice::ImageSlice;

verus! {

/// What decoding one file gave.
#[derive(Debug, Clone)]
pub enum Decoded {
    /// The slices of a NIfTI volume.
    Volume(Vec<ImageSlice>),
    /// The slice of a DICOM object.
    Frame(ImageSlice),
    /// Nothing: the file is of neither kind.
    Skipped,
}

/// The slices gathered from the files of a path, before they are put in
/// order.
pub open spec fn gathered(files: Seq<Decoded>) -> Seq<ImageSlice>
    decreases files.len(),
{
    if files.len() == 0 {
        Seq::empty()
    } else {
        match files.last() {
            Decoded::Volume(slices) => slices@,
            Decoded::Frame(slice) => gathered(files.drop_last()).push(slice),
            Decoded::Skipped => gathered(files.drop_last()),
        }
    }
}

/// Takes one decoded file into what has been gathered.
pub fn gather(slices: &mut Vec<ImageSlice>, file: Decoded)
    ensures
        final(slices)@ == match file {
            Decoded::Volume(volume) => volume@,
            Decoded::Frame(slice) => old(slices)@.push(slice),
            Decoded::Skipped => old(slices)@,
        },
{
    match file {
        Decoded::Volume(volume) => {
            *slices = volume;
        },
        Decoded::Frame(slice) => {
            slices.push(slice);
        },
        Decoded::Skipped => {},
    }
}

/// Gathers the slices of the decoded files of a path and puts them in
/// display order.
pub fn load_images(files: Vec<Decoded>) -> (slices: Vec<ImageSlice>)
    ensures
        is_ordering_of(slices@, gathered(files@)),
{
    let mut slices: Vec<ImageSlice> = Vec::new();
    for file in it: files
        invariant
            slices@ == gathered(it.seq().take(it.index() as int)),
    {
        proof {
            let upto = it.seq().take(it.index() + 1);
            assert(upto.drop_last() =~= it.seq().take(it.index() as int));
            assert(upto.last() == file);
        }
        gather(&mut slices, file);
    }
    proof {
        assert(files@.take(files@.len() as int) =~= files@);
    }
    order_slices(&mut slices);
    slices
}

/// Of several volumes only the last is kept: where the last file is a
/// volume, what is gathered is its slices and nothing else.
pub proof fn lemma_last_volume_replaces(files: Seq<Decoded>, volume: Vec<ImageSlice>)
    requires
        files.len() > 0,
        files.last() == Decoded::Volume(volume),
    ensures
        gathered(files) == volume@,
{
}

/// Two volumes and nothing else give the slices of the second one.
pub proof fn lemma_two_volumes(first: Vec<ImageSlice>, second: Vec<ImageSlice>)
    ensures
        gathered(seq![Decoded::Volume(first), Decoded::Volume(second)]) == second@,
{
}

/// A single DICOM file gives a collection of one slice: its own.
pub proof fn lemma_single_frame(slice: ImageSlice, shown: Seq<ImageSlice>)
    requires
        is_ordering_of(shown, gathered(seq![Decoded::Frame(slice)])),
    ensures
        shown == seq![slice],
{
    let files = seq![Decoded::Frame(slice)];
    assert(files.drop_last() =~= Seq::<Decoded>::empty());
    assert(gathered(files.drop_last()) =~= Seq::<ImageSlice>::empty());
    assert(gathered(files) =~= seq![slice]);
    let from = choose|from: Seq<int>| ordered_by(shown, gathered(files), from);
    assert(follows(shown, gathered(files), from));
    assert(is_rearrangement(from, 1));
    assert(from[0] == 0);
    assert(shown[0] == gathered(files)[from[0]]);
    assert(shown =~= seq![slice]);
}

/// Frames alone are all kept: what is gathered from them is the frames
/// in the order of their files.
pub proof fn lemma_frames_are_kept(files: Seq<Decoded>)
    requires
        forall|i: int| 0 <= i < files.len() ==> (#[trigger] files[i]) is Frame,
    ensures
        gathered(files).len() == files.len(),
        forall|i: int|
            0 <= i < files.len() ==> Decoded::Frame(#[trigger] gathered(files)[i]) == files[i],
    decreases files.len(),
{
    if files.len() > 0 {
        let rest = files.drop_last();
        assert forall|i: int| 0 <= i < rest.len() implies (#[trigger] rest[i]) is Frame by {
            assert(rest[i] == files[i]);
        }
        lemma_frames_are_kept(rest);
        assert(files.last() == files[files.len() - 1]);
        assert forall|i: int| 0 <= i < files.len() implies Decoded::Frame(
            #[trigger] gathered(files)[i],
        ) == files[i] by {
            if i < rest.len() {
                assert(gathered(files)[i] == gathered(rest)[i]);
                assert(rest[i] == files[i]);
            }
        }
    }
}

} // verus!
