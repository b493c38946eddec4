//! The mapping entry form: the raw text fields an operator fills in, and
//! their validation into a create request.

use crate::types::CreateMappingRequest;
use vstd::prelude::*;

verus! {

/// Whether `c` is an ASCII decimal digit.
pub open spec fn is_digit(c: char) -> bool {
    '0' as int <= c as int <= '9' as int
}

/// Whether every character of `s` is an ASCII decimal digit.
pub open spec fn all_digits(s: Seq<char>) -> bool {
    forall|i: int| 0 <= i < s.len() ==> is_digit(#[trigger] s[i])
}

/// Numeric value of a digit string, most significant digit first.
pub open spec fn digits_value(s: Seq<char>) -> int
    decreases s.len(),
{
    if s.len() == 0 {
        0
    } else {
        digits_value(s.drop_last()) * 10 + (s.last() as int - '0' as int)
    }
}

/// Whether `s` is a non-empty digit string whose value fits in a `u64`.
pub open spec fn valid_u64_digits(s: Seq<char>) -> bool {
    s.len() > 0 && all_digits(s) && digits_value(s) <= u64::MAX
}

/// A digit string's value is never negative.
proof fn lemma_digits_value_nonneg(s: Seq<char>)
    requires
        all_digits(s),
    ensures
        digits_value(s) >= 0,
    decreases s.len(),
{
    if s.len() > 0 {
        assert(all_digits(s.drop_last())) by {
            assert(forall|i: int| 0 <= i < s.len() - 1 ==> s.drop_last()[i] == s[i]);
        }
        lemma_digits_value_nonneg(s.drop_last());
    }
}

/// Reading more digits never makes the value smaller: the value of a
/// prefix bounds the value of the whole string from below.
proof fn lemma_digits_value_prefix(s: Seq<char>, j: int)
    requires
        0 <= j <= s.len(),
        all_digits(s),
    ensures
        digits_value(s.take(j)) <= digits_value(s),
    decreases s.len() - j,
{
    if j == s.len() {
        assert(s.take(j) =~= s);
    } else {
        assert(s.take(j + 1).drop_last() =~= s.take(j));
        assert(s.take(j + 1).last() == s[j]);
        assert(all_digits(s.take(j))) by {
            assert(forall|i: int| 0 <= i < j ==> s.take(j)[i] == s[i]);
        }
        lemma_digits_value_nonneg(s.take(j));
        assert(digits_value(s.take(j)) <= digits_value(s.take(j + 1)));
        lemma_digits_value_prefix(s, j + 1);
    }
}

/// Parses a non-empty string of ASCII digits into a `u64`.
///
/// Returns `None` exactly when the string is empty, holds a non-digit, or
/// names a value that does not fit.
pub fn parse_u64(s: &str) -> (r: Option<u64>)
    ensures
        match r {
            Some(v) => valid_u64_digits(s@) && v == digits_value(s@),
            None => !valid_u64_digits(s@),
        },
{
    let len = s.unicode_len();
    if len == 0 {
        return None;
    }
    let mut acc: u64 = 0;
    let mut i: usize = 0;
    while i < len
        invariant
            0 <= i <= len,
            len == s@.len(),
            all_digits(s@.take(i as int)),
            acc == digits_value(s@.take(i as int)),
        decreases len - i,
    {
        let c = s.get_char(i);
        let cu = c as u32;
        if cu < 48 || cu > 57 {
            return None;
        }
        let d = (cu - 48) as u64;
        proof {
            assert(s@.take(i as int + 1).drop_last() =~= s@.take(i as int));
            assert(s@.take(i as int + 1).last() == s@[i as int]);
        }
        let next = match acc.checked_mul(10) {
            Some(t) => t.checked_add(d),
            None => None,
        };
        match next {
            Some(v) => {
                acc = v;
            },
            None => {
                proof {
                    if all_digits(s@) {
                        assert(digits_value(s@.take(i as int + 1)) > u64::MAX);
                        lemma_digits_value_prefix(s@, i as int + 1);
                    }
                }
                return None;
            },
        }
        i = i + 1;
    }
    proof {
        assert(s@.take(len as int) =~= s@);
    }
    Some(acc)
}

/// The state of the mapping entry form: raw text for each field, and which
/// field holds the cursor.
#[derive(Debug, Clone)]
pub struct FormState {
    pub s3_url: String,
    pub short_url: String,
    pub hosted_zone_id: String,
    pub presign_duration_hours: String,
    pub refresh_interval_hours: String,
    pub current_field: usize,
}

impl Default for FormState {
    /// An empty form with the default periods: 12 hours of signed-URL
    /// validity, refreshed every 11 hours.
    fn default() -> (r: Self)
        ensures
            r.s3_url@ == Seq::<char>::empty(),
            r.short_url@ == Seq::<char>::empty(),
            r.hosted_zone_id@ == Seq::<char>::empty(),
            r.presign_duration_hours@ == "12"@,
            r.refresh_interval_hours@ == "11"@,
            r.current_field == 0,
    {
        FormState {
            s3_url: String::new(),
            short_url: String::new(),
            hosted_zone_id: String::new(),
            presign_duration_hours: String::from_str("12"),
            refresh_interval_hours: String::from_str("11"),
            current_field: 0,
        }
    }
}

impl FormState {
    /// Resets the form to its default state.
    pub fn clear(&mut self)
        ensures
            final(self).s3_url@ == Seq::<char>::empty(),
            final(self).short_url@ == Seq::<char>::empty(),
            final(self).hosted_zone_id@ == Seq::<char>::empty(),
            final(self).presign_duration_hours@ == "12"@,
            final(self).refresh_interval_hours@ == "11"@,
            final(self).current_field == 0,
    {
        *self = FormState::default();
    }

    /// Validates the form into a create request.
    ///
    /// Each hour field must be a non-empty digit string whose value in
    /// seconds (hours times 3600) fits in a `u64`; otherwise the request
    /// is refused, naming the offending field.
    pub fn to_request(&self) -> (r: Result<CreateMappingRequest, String>)
        ensures
            ({
                let pres = self.presign_duration_hours@;
                let refr = self.refresh_interval_hours@;
                let pres_ok = valid_u64_digits(pres) && digits_value(pres) * 3600 <= u64::MAX;
                let refr_ok = valid_u64_digits(refr) && digits_value(refr) * 3600 <= u64::MAX;
                &&& (pres_ok && refr_ok ==> (match r {
                    Ok(q) => q.s3_url@ == self.s3_url@ && q.short_url@ == self.short_url@
                        && q.hosted_zone_id@ == self.hosted_zone_id@ && q.presign_duration_secs
                        == digits_value(pres) * 3600 && q.refresh_interval_secs == digits_value(
                        refr,
                    ) * 3600,
                    Err(_) => false,
                }))
                &&& (!pres_ok ==> (r matches Err(e) && e@ == "Invalid presign duration"@))
                &&& (pres_ok && !refr_ok ==> (r matches Err(e) && e@
                    == "Invalid refresh interval"@))
            }),
    {
        let presign_hours = match parse_u64(self.presign_duration_hours.as_str()) {
            Some(v) => v,
            None => {
                return Err(String::from_str("Invalid presign duration"));
            },
        };
        let presign_duration_secs = match presign_hours.checked_mul(3600) {
            Some(v) => v,
            None => {
                return Err(String::from_str("Invalid presign duration"));
            },
        };
        let refresh_hours = match parse_u64(self.refresh_interval_hours.as_str()) {
            Some(v) => v,
            None => {
                return Err(String::from_str("Invalid refresh interval"));
            },
        };
        let refresh_interval_secs = match refresh_hours.checked_mul(3600) {
            Some(v) => v,
            None => {
                return Err(String::from_str("Invalid refresh interval"));
            },
        };
        Ok(
            CreateMappingRequest {
                s3_url: self.s3_url.clone(),
                short_url: self.short_url.clone(),
                hosted_zone_id: self.hosted_zone_id.clone(),
                presign_duration_secs,
                refresh_interval_secs,
            },
        )
    }
}

} // verus!
