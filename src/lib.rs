use vstd::prelude::*;

pub mod decimal;
pub mod provider;
pub mod storage;

verus! {

/// One photo: where its full-resolution content lives, its tags, and its
/// content once fetched.
#[derive(Debug, Clone)]
pub struct Photo {
    pub original_url: String,
    pub tags: Vec<String>,
    pub bytes: Option<Vec<u8>>,
}

/// The mathematical value of a `Photo`.
pub struct PhotoView {
    pub original_url: Seq<char>,
    pub tags: Seq<Seq<char>>,
    pub bytes: Option<Seq<u8>>,
}

impl View for Photo {
    type V = PhotoView;

    open spec fn view(&self) -> PhotoView {
        PhotoView {
            original_url: self.original_url@,
            tags: self.tags@.map_values(|t: String| t@),
            bytes: match self.bytes {
                Some(b) => Some(b@),
                None => None,
            },
        }
    }
}

/// Two photos with the same address and tags, whatever their content.
pub open spec fn same_photo(a: PhotoView, b: PhotoView) -> bool {
    a.original_url == b.original_url && a.tags == b.tags
}

/// A photo is accepted when it carries at least one tag.
pub open spec fn accepted(p: PhotoView) -> bool {
    p.tags.len() > 0
}

/// The accepted photos of `s`, in their order.
pub open spec fn kept(s: Seq<PhotoView>) -> Seq<PhotoView>
    decreases s.len(),
{
    if s.len() == 0 {
        s
    } else if accepted(s.last()) {
        kept(s.drop_last()).push(s.last())
    } else {
        kept(s.drop_last())
    }
}

/// The photos that pass the filter are exactly the tagged ones of the list:
/// every kept photo has a tag and comes from the list, and every tagged photo
/// of the list is kept.
pub proof fn lemma_kept_exactly_tagged(list: Seq<PhotoView>)
    ensures
        forall|i: int| 0 <= i < kept(list).len() ==> accepted(#[trigger] kept(list)[i]),
        forall|i: int| 0 <= i < kept(list).len() ==> list.contains(#[trigger] kept(list)[i]),
        forall|i: int| 0 <= i < list.len() && accepted(#[trigger] list[i]) ==> kept(list).contains(list[i]),
    decreases list.len(),
{
    if list.len() > 0 {
        let init = list.drop_last();
        lemma_kept_exactly_tagged(init);
        assert forall|i: int| 0 <= i < kept(list).len() implies list.contains(#[trigger] kept(list)[i]) by {
            if i < kept(init).len() {
                let j = choose|j: int| 0 <= j < init.len() && init[j] == kept(init)[i];
                assert(list[j] == kept(list)[i]);
            } else {
                assert(list[list.len() - 1] == kept(list)[i]);
            }
        }
        assert forall|i: int| 0 <= i < list.len() && accepted(#[trigger] list[i]) implies kept(list).contains(list[i]) by {
            if i < list.len() - 1 {
                assert(init[i] == list[i]);
                let j = choose|j: int| 0 <= j < kept(init).len() && kept(init)[j] == init[i];
                assert(kept(list)[j] == list[i]);
            } else {
                assert(kept(list)[kept(list).len() - 1] == list[i]);
            }
        }
    }
}

/// Why a listing of photo metadata failed.
#[derive(Debug, Clone, Copy, PartialEq, Eq, Structural)]
pub enum ListingError {
    /// A page could not be requested or read.
    Transport,
    /// A page did not have the expected shape.
    Malformed,
}

/// Why a photo was not saved.
#[derive(Debug, Clone, Copy, PartialEq, Eq, Structural)]
pub enum SaveError {
    /// The photo carried no content.
    NoBytes,
    /// Every sequence number has been used.
    SequenceExhausted,
    /// The backing store refused the write.
    Write,
}

/// Where photos persist.
pub trait PhotoStorage {
    /// Persists the content of `photo` under a new name; a photo without
    /// content is a failure.
    fn save_photo(&mut self, photo: &Photo) -> (r: Result<(), SaveError>)
        ensures
            photo.bytes is None ==> r is Err,
    ;
}

/// Where photos come from.
pub trait PhotoProvider {
    /// All photos that match the provider's query, none with content yet.
    fn build_photos_metadata_list(&self) -> (r: Result<Vec<Photo>, ListingError>)
        ensures
            r matches Ok(list) ==> forall|i: int| 0 <= i < list.len() ==> (#[trigger] list[i]).bytes is None,
    ;

    /// Fetches the content of `photo`; on failure its bytes stay as they were.
    fn get_photo_data(&mut self, photo: &mut Photo)
        ensures
            same_photo(final(photo)@, old(photo)@),
            final(photo).bytes is None ==> old(photo).bytes is None,
    ;
}

/// One call that the collector made on its provider or its storage.
pub enum CallEvent {
    /// The provider listed the photos.
    List,
    /// The provider fetched the content of a photo: as handed in, and as it
    /// came back.
    Fetch(PhotoView, PhotoView),
    /// The storage was asked to save a photo.
    Save(PhotoView),
}

/// A fetch that turned `handed` into `left`: same address and tags, and
/// content that it did not take away.
pub open spec fn fetch_result(handed: PhotoView, left: PhotoView) -> bool {
    same_photo(left, handed) && (left.bytes is None ==> handed.bytes is None)
}

/// For each photo of `handed` in order: its fetch, which left `left[j]`,
/// then the save of `left[j]`.
pub open spec fn pipeline_events(handed: Seq<PhotoView>, left: Seq<PhotoView>) -> Seq<CallEvent>
    decreases handed.len(),
{
    if handed.len() == 0 {
        Seq::empty()
    } else {
        pipeline_events(handed.drop_last(), left.drop_last())
            + seq![CallEvent::Fetch(handed.last(), left.last()), CallEvent::Save(left.last())]
    }
}

/// The calls from `before` to `after` fetched then saved each accepted photo
/// of `list`, one after the other in list order, each saved as its fetch
/// left it, and made no other call.
pub open spec fn processed(list: Seq<PhotoView>, before: Seq<CallEvent>, after: Seq<CallEvent>) -> bool {
    exists|left: Seq<PhotoView>|
        #[trigger] pipeline_events(kept(list), left) == after.subrange(before.len() as int, after.len() as int)
            && after.len() >= before.len()
            && after.subrange(0, before.len() as int) == before
            && left.len() == kept(list).len()
            && forall|j: int| 0 <= j < left.len() ==> fetch_result(kept(list)[j], #[trigger] left[j])
}

/// Runs the pipeline: list, filter by tags, then fetch and save each photo.
pub struct Collector<P: PhotoProvider, S: PhotoStorage> {
    pub photo_provider: P,
    pub photo_storage: S,
    /// The calls made on the provider and the storage, in order.
    pub calls: Ghost<Seq<CallEvent>>,
}

impl<P: PhotoProvider, S: PhotoStorage> Collector<P, S> {
    pub fn new(photo_provider: P, photo_storage: S) -> (r: Collector<P, S>)
        ensures
            r.photo_provider == photo_provider,
            r.photo_storage == photo_storage,
            r.calls@ == Seq::<CallEvent>::empty(),
    {
        Collector { photo_provider, photo_storage, calls: Ghost(Seq::empty()) }
    }

    /// Lists the photos, then fetches and saves each one that has a tag, in
    /// list order. A failed listing stops the run before any fetch or save.
    /// Returns how many listed photos were dropped for having no tag.
    pub fn collect(&mut self) -> (r: Result<usize, ListingError>)
        ensures
            r matches Err(e) ==> call_ensures(P::build_photos_metadata_list, (&old(self).photo_provider,),
                Err::<Vec<Photo>, ListingError>(e)),
            r is Err ==> final(self).calls@ == old(self).calls@.push(CallEvent::List),
            r matches Ok(dropped) ==> exists|v: Vec<Photo>|
                #[trigger] call_ensures(P::build_photos_metadata_list, (&old(self).photo_provider,),
                    Ok::<Vec<Photo>, ListingError>(v))
                && processed(v@.map_values(|p: Photo| p@), old(self).calls@.push(CallEvent::List),
                    final(self).calls@)
                && dropped == v@.len() - kept(v@.map_values(|p: Photo| p@)).len(),
    {
        let listed = self.build_images_list();
        match listed {
            Err(e) => Err(e),
            Ok(photos) => {
                let dropped = self.process_photos(photos);
                Ok(dropped)
            },
        }
    }

    fn build_images_list(&mut self) -> (r: Result<Vec<Photo>, ListingError>)
        ensures
            call_ensures(P::build_photos_metadata_list, (&old(self).photo_provider,), r),
            final(self).photo_provider == old(self).photo_provider,
            final(self).photo_storage == old(self).photo_storage,
            final(self).calls@ == old(self).calls@.push(CallEvent::List),
            r matches Ok(list) ==> forall|i: int| 0 <= i < list.len() ==> (#[trigger] list[i]).bytes is None,
    {
        proof {
            self.calls@ = self.calls@.push(CallEvent::List);
        }
        self.photo_provider.build_photos_metadata_list()
    }

    /// Fetches then saves each photo of `photos` that has a tag, in order; a
    /// photo without tags reaches neither the provider nor the storage.
    /// Returns how many photos were dropped for having no tag.
    pub fn process_photos(&mut self, photos: Vec<Photo>) -> (dropped: usize)
        ensures
            processed(photos@.map_values(|p: Photo| p@), old(self).calls@, final(self).calls@),
            dropped == photos@.len() - kept(photos@.map_values(|p: Photo| p@)).len(),
    {
        let ghost all = photos@.map_values(|p: Photo| p@);
        let ghost calls0 = self.calls@;
        let ghost left: Seq<PhotoView> = Seq::empty();
        let n = photos.len();
        let mut rest = photos;
        let mut i: usize = 0;
        let mut dropped: usize = 0;
        proof {
            assert(all.take(0) =~= Seq::<PhotoView>::empty());
            assert(calls0.subrange(calls0.len() as int, calls0.len() as int) =~= Seq::<CallEvent>::empty());
            assert(calls0.subrange(0, calls0.len() as int) =~= calls0);
        }
        while rest.len() > 0
            invariant
                all.len() == n,
                i <= all.len(),
                rest@.len() == all.len() - i,
                forall|j: int| 0 <= j < rest@.len() ==> #[trigger] rest@[j]@ == all[i + j],
                self.calls@.len() >= calls0.len(),
                self.calls@.subrange(0, calls0.len() as int) == calls0,
                pipeline_events(kept(all.take(i as int)), left)
                    == self.calls@.subrange(calls0.len() as int, self.calls@.len() as int),
                left.len() == kept(all.take(i as int)).len(),
                forall|j: int| 0 <= j < left.len() ==> fetch_result(kept(all.take(i as int))[j], #[trigger] left[j]),
                dropped == i - kept(all.take(i as int)).len(),
            decreases rest.len(),
        {
            let mut photo = rest.remove(0);
            proof {
                assert(photo@ == all[i as int]);
                assert(all.take(i + 1).drop_last() =~= all.take(i as int));
                assert(all.take(i + 1).last() == all[i as int]);
                lemma_kept_len(all.take(i as int));
            }
            let ghost calls_before = self.calls@;
            if self.filter_photo(&photo) {
                let ghost handed = photo@;
                self.get_photo_data(&mut photo);
                self.save_photo(&photo);
                proof {
                    let k = kept(all.take(i as int));
                    let k2 = kept(all.take(i + 1));
                    assert(k2 == k.push(all[i as int]));
                    let left2 = left.push(photo@);
                    assert(k2.drop_last() =~= k);
                    assert(left2.drop_last() =~= left);
                    assert(pipeline_events(k2, left2) == pipeline_events(k, left)
                        + seq![CallEvent::Fetch(handed, photo@), CallEvent::Save(photo@)]);
                    let now = self.calls@;
                    assert(now == calls_before.push(CallEvent::Fetch(handed, photo@)).push(CallEvent::Save(photo@)));
                    assert(now.subrange(0, calls0.len() as int) =~= calls_before.subrange(0, calls0.len() as int));
                    assert(now.subrange(calls0.len() as int, now.len() as int) =~= calls_before.subrange(
                        calls0.len() as int, calls_before.len() as int)
                        + seq![CallEvent::Fetch(handed, photo@), CallEvent::Save(photo@)]);
                    assert forall|j: int| 0 <= j < left2.len() implies fetch_result(k2[j], #[trigger] left2[j]) by {
                        if j < left.len() {
                            assert(left2[j] == left[j]);
                        }
                    }
                    left = left2;
                }
            } else {
                dropped = dropped + 1;
                proof {
                    assert(kept(all.take(i + 1)) == kept(all.take(i as int)));
                }
            }
            i = i + 1;
        }
        proof {
            assert(all.take(i as int) =~= all);
        }
        dropped
    }

    fn get_photo_data(&mut self, photo: &mut Photo)
        ensures
            final(self).calls@ == old(self).calls@.push(CallEvent::Fetch(old(photo)@, final(photo)@)),
            fetch_result(old(photo)@, final(photo)@),
    {
        self.photo_provider.get_photo_data(photo);
        proof {
            self.calls@ = self.calls@.push(CallEvent::Fetch(old(photo)@, photo@));
        }
    }

    fn save_photo(&mut self, photo: &Photo)
        ensures
            final(self).calls@ == old(self).calls@.push(CallEvent::Save(photo@)),
    {
        proof {
            self.calls@ = self.calls@.push(CallEvent::Save(photo@));
        }
        let _ = self.photo_storage.save_photo(photo);
    }

    fn filter_photo(&self, photo: &Photo) -> (r: bool)
        ensures
            r == accepted(photo@),
    {
        photo.tags.len() > 0
    }
}

proof fn lemma_kept_len(s: Seq<PhotoView>)
    ensures
        kept(s).len() <= s.len(),
    decreases s.len(),
{
    if s.len() > 0 {
        lemma_kept_len(s.drop_last());
    }
}

} // verus!
