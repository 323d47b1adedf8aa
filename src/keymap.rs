use vstd::prelude::*;

verus! {

/// `s` without its trailing NUL bytes.
pub open spec fn trim_trailing_nuls(s: Seq<u8>) -> Seq<u8>
    decreases s.len(),
{
    if s.len() > 0 && s.last() == 0 {
        trim_trailing_nuls(s.drop_last())
    } else {
        s
    }
}

/// Holds the keyboard keymap text that the compositor sent, once it came.
pub struct WlHandler {
    pub keymap: Option<Vec<u8>>,
}

impl WlHandler {
    pub fn new() -> (h: Self)
        ensures
            h.keymap is None,
    {
        WlHandler { keymap: None }
    }

    /// Keeps the keymap bytes `data` without the NUL terminator(s) that the
    /// compositor may append, since keymap text must not contain them.
    pub fn store_keymap(&mut self, data: Vec<u8>)
        ensures
            final(self).keymap matches Some(k) && k@ == trim_trailing_nuls(data@),
    {
        let ghost original = data@;
        let mut data = data;
        while data.len() > 0 && data[data.len() - 1] == 0
            invariant
                trim_trailing_nuls(data@) == trim_trailing_nuls(original),
            decreases data.len(),
        {
            assert(data@.drop_last() == data@.subrange(0, data@.len() - 1));
            data.pop();
        }
        self.keymap = Some(data);
    }
}

} // verus!
