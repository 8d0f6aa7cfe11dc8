//! Whose data a record is.

use vstd::prelude::*;
use vstd::string::*;
use vstd::utf8::*;

use crate::text::same_text;

verus! {

/// The most bytes a tenant id can have: its length is written in one byte.
pub const MAX_TENANT_BYTES: usize = 255;

/// A tenant id: text of 1 to 255 bytes.
pub struct TenantId {
    text: String,
}

impl View for TenantId {
    type V = Seq<char>;

    closed spec fn view(&self) -> Seq<char> {
        self.text@
    }
}

/// Whether text can be a tenant id.
pub open spec fn is_tenant(text: Seq<char>) -> bool {
    0 < encode_utf8(text).len() <= MAX_TENANT_BYTES
}

/// What is wrong with text that cannot be a tenant id.
pub open spec fn tenant_problem(text: Seq<char>) -> Seq<char> {
    if encode_utf8(text).len() == 0 {
        "tenant id must not be empty"@
    } else {
        "tenant id must not exceed 255 bytes"@
    }
}

impl TenantId {
    pub open spec fn wf(&self) -> bool {
        is_tenant(self@)
    }

    pub fn parse(raw: &str) -> (out: Result<TenantId, String>)
        ensures
            match out {
                Ok(tenant) => is_tenant(raw@) && tenant@ == raw@,
                Err(message) => !is_tenant(raw@) && message@ == tenant_problem(raw@),
            },
    {
        let bytes = raw.as_bytes();
        if bytes.len() == 0 {
            return Err("tenant id must not be empty".to_owned());
        }
        if bytes.len() > MAX_TENANT_BYTES {
            return Err("tenant id must not exceed 255 bytes".to_owned());
        }
        Ok(TenantId { text: raw.to_owned() })
    }

    pub fn as_str(&self) -> (text: &str)
        ensures
            text@ == self@,
    {
        self.text.as_str()
    }

    /// Whether two ids are the same.
    pub fn same(&self, other: &TenantId) -> (same: bool)
        ensures
            same == (self@ == other@),
    {
        same_text(self.text.as_str(), other.text.as_str())
    }
}

impl Clone for TenantId {
    fn clone(&self) -> (copy: Self)
        ensures
            copy@ == self@,
    {
        TenantId { text: self.text.clone() }
    }
}

/// A tenant id is a text of 1 to 255 bytes. Only no text at all is called empty.
pub proof fn a_tenant_has_from_1_to_255_bytes(text: Seq<char>)
    ensures
        is_tenant(text) <==> 1 <= encode_utf8(text).len() <= 255,
        encode_utf8(text).len() == 0 ==> tenant_problem(text) == "tenant id must not be empty"@,
        encode_utf8(text).len() > 255 ==> tenant_problem(text)
            == "tenant id must not exceed 255 bytes"@,
{
}

} // verus!
