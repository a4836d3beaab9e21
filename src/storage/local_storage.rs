use vstd::prelude::*;
use vstd::string::*;

use crate::decimal::{digits, lemma_digits_injective, u64_text};
use crate::{Photo, SaveError};

verus! {

/// The name of the file that holds the photo saved under `seq` in `dir`.
pub open spec fn file_name(dir: Seq<char>, seq: nat) -> Seq<char> {
    dir + "/"@ + digits(seq) + ".jpg"@
}

/// Names photos saved in a directory by a sequence number that starts at 1
/// and advances with every save attempt.
pub struct LocalPhotoStorage {
    pub dir: String,
    pub next_seq: u64,
}

impl LocalPhotoStorage {
    /// A storage for `path` whose first photo will be number 1.
    pub fn new(path: &String) -> (r: LocalPhotoStorage)
        ensures
            r.dir@ == path@,
            r.next_seq == 1,
    {
        LocalPhotoStorage { dir: path.clone(), next_seq: 1 }
    }

    /// Takes the next sequence number for `photo` and returns the file its
    /// content goes to. A photo without content gets no file, and its number
    /// is used up all the same.
    pub fn claim_destination(&mut self, photo: &Photo) -> (r: Result<String, SaveError>)
        ensures
            final(self).dir == old(self).dir,
            old(self).next_seq == u64::MAX ==> (final(self).next_seq == old(self).next_seq
                && r matches Err(SaveError::SequenceExhausted)),
            old(self).next_seq < u64::MAX ==> final(self).next_seq == old(self).next_seq + 1,
            old(self).next_seq < u64::MAX && photo.bytes is None ==> r matches Err(SaveError::NoBytes),
            old(self).next_seq < u64::MAX && photo.bytes is Some ==> (r matches Ok(name)
                && name@ == file_name(old(self).dir@, old(self).next_seq as nat)),
    {
        if self.next_seq == u64::MAX {
            return Err(SaveError::SequenceExhausted);
        }
        let id = self.next_seq;
        self.next_seq = id + 1;
        match &photo.bytes {
            None => Err(SaveError::NoBytes),
            Some(_) => {
                let mut name = self.dir.clone();
                name.append("/");
                let number = u64_text(id);
                name.append(number.as_str());
                name.append(".jpg");
                Ok(name)
            },
        }
    }
}

/// Different sequence numbers name different files, so successive saves
/// never overwrite one another.
pub proof fn lemma_file_names_distinct(dir: Seq<char>, a: nat, b: nat)
    requires
        a != b,
    ensures
        file_name(dir, a) != file_name(dir, b),
{
    reveal_strlit("/");
    reveal_strlit(".jpg");
    if file_name(dir, a) == file_name(dir, b) {
        let fa = file_name(dir, a);
        let fb = file_name(dir, b);
        let start: int = dir.len() as int + 1;
        assert(fa.len() == start + digits(a).len() + 4);
        assert(fb.len() == start + digits(b).len() + 4);
        assert(fa.subrange(start, start + digits(a).len() as int) =~= digits(a));
        assert(fb.subrange(start, start + digits(b).len() as int) =~= digits(b));
        lemma_digits_injective(a, b);
    }
}

} // verus!
