use vstd::prelude::*;

use crate::fields::Fields;

verus! {

/// Strict lexicographic order over byte strings.
pub open spec fn lex_lt(a: Seq<u8>, b: Seq<u8>) -> bool
    decreases a.len(),
{
    if b.len() == 0 {
        false
    } else if a.len() == 0 {
        true
    } else if a[0] < b[0] {
        true
    } else if a[0] > b[0] {
        false
    } else {
        lex_lt(a.drop_first(), b.drop_first())
    }
}

pub fn lex_less(a: &[u8], b: &[u8]) -> (r: bool)
    ensures
        r == lex_lt(a@, b@),
    decreases a@.len(),
{
    let an: usize = a.len();
    let bn: usize = b.len();
    if bn == 0 {
        false
    } else if an == 0 {
        true
    } else if a[0] < b[0] {
        true
    } else if a[0] > b[0] {
        false
    } else {
        let r = lex_less(
            vstd::slice::slice_subrange(a, 1, an),
            vstd::slice::slice_subrange(b, 1, bn),
        );
        proof {
            assert(a@.subrange(1, an as int) =~= a@.drop_first());
            assert(b@.subrange(1, bn as int) =~= b@.drop_first());
        }
        r
    }
}

/// The running minimum after one more value is seen.
pub open spec fn min_after(cur: Option<Seq<u8>>, d: Seq<u8>) -> Option<Seq<u8>> {
    match cur {
        None => Some(d),
        Some(m) => if lex_lt(d, m) {
            Some(d)
        } else {
            Some(m)
        },
    }
}

/// The running maximum after one more value is seen.
pub open spec fn max_after(cur: Option<Seq<u8>>, d: Seq<u8>) -> Option<Seq<u8>> {
    match cur {
        None => Some(d),
        Some(m) => if lex_lt(m, d) {
            Some(d)
        } else {
            Some(m)
        },
    }
}

/// Running minimum and maximum of the raw field values of the records in the
/// current block, under the lexicographic byte order. Reset at block
/// boundaries.
pub struct StatsCollector {
    pub field: Fields,
    pub min_value: Option<Vec<u8>>,
    pub max_value: Option<Vec<u8>>,
}

impl StatsCollector {
    pub open spec fn min_view(self) -> Option<Seq<u8>> {
        match self.min_value {
            Some(v) => Some(v@),
            None => None,
        }
    }

    pub open spec fn max_view(self) -> Option<Seq<u8>> {
        match self.max_value {
            Some(v) => Some(v@),
            None => None,
        }
    }

    pub fn new(field: Fields) -> (r: Self)
        ensures
            r.field == field,
            r.min_view() is None,
            r.max_view() is None,
    {
        StatsCollector { field, min_value: None, max_value: None }
    }

    pub fn update(&mut self, data: &[u8])
        ensures
            final(self).field == old(self).field,
            final(self).min_view() == min_after(old(self).min_view(), data@),
            final(self).max_view() == max_after(old(self).max_view(), data@),
    {
        let replace_min = match &self.min_value {
            None => true,
            Some(m) => lex_less(data, m.as_slice()),
        };
        if replace_min {
            self.min_value = Some(vstd::slice::slice_to_vec(data));
        }
        let replace_max = match &self.max_value {
            None => true,
            Some(m) => lex_less(m.as_slice(), data),
        };
        if replace_max {
            self.max_value = Some(vstd::slice::slice_to_vec(data));
        }
    }

    pub fn reset(&mut self)
        ensures
            final(self).field == old(self).field,
            final(self).min_view() is None,
            final(self).max_view() is None,
    {
        self.min_value = None;
        self.max_value = None;
    }
}

} // verus!
