//! HTTP methods, including the WebDAV extension method `PROPFIND` and
//! caller-supplied extension methods built from raw bytes.
use crate::strutil::push_char;
use vstd::prelude::*;

verus! {

/// An HTTP method. `Custom` carries an extension method name whose bytes
/// have been checked to be valid HTTP token characters.
#[derive(Debug, Clone, PartialEq)]
pub enum Method {
    Get,
    Post,
    Put,
    Delete,
    Patch,
    Propfind,
    Custom(String),
}

/// The name a method is sent as on the wire.
pub open spec fn method_name(m: Method) -> Seq<char> {
    match m {
        Method::Get => "GET"@,
        Method::Post => "POST"@,
        Method::Put => "PUT"@,
        Method::Delete => "DELETE"@,
        Method::Patch => "PATCH"@,
        Method::Propfind => "PROPFIND"@,
        Method::Custom(s) => s@,
    }
}

/// The bytes an HTTP method name may consist of: the token characters
/// `! # $ % & ' * + - . ^ _ ` | ~`, digits, and letters.
pub open spec fn is_method_byte(b: u8) -> bool {
    ||| b == 33
    ||| 35 <= b <= 39
    ||| b == 42
    ||| b == 43
    ||| b == 45
    ||| b == 46
    ||| 48 <= b <= 57
    ||| 65 <= b <= 90
    ||| 94 <= b <= 96
    ||| 97 <= b <= 122
    ||| b == 124
    ||| b == 126
}

impl Method {
    /// The method's wire name as a string.
    pub fn convert(&self) -> (r: String)
        ensures
            r@ == method_name(*self),
    {
        match self {
            Method::Get => String::from_str("GET"),
            Method::Post => String::from_str("POST"),
            Method::Put => String::from_str("PUT"),
            Method::Delete => String::from_str("DELETE"),
            Method::Patch => String::from_str("PATCH"),
            Method::Propfind => String::from_str("PROPFIND"),
            Method::Custom(s) => s.clone(),
        }
    }

    /// Builds an extension method from raw bytes. Fails exactly when the
    /// input is empty or holds a byte that is not a valid HTTP token
    /// character; otherwise the method's name is the input read as
    /// characters.
    pub fn from_bytes(src: &[u8]) -> (r: Result<Self, String>)
        ensures
            match r {
                Ok(m) => {
                    &&& src@.len() > 0
                    &&& forall|k: int| 0 <= k < src@.len() ==> is_method_byte(src@[k])
                    &&& method_name(m) == src@.map_values(|b: u8| b as char)
                },
                Err(_) => src@.len() == 0 || exists|k: int|
                    0 <= k < src@.len() && !is_method_byte(src@[k]),
            },
    {
        let n = src.len();
        if n == 0 {
            return Err(String::from_str("invalid method"));
        }
        let mut name = String::new();
        let mut i: usize = 0;
        while i < n
            invariant
                i <= n,
                n == src@.len(),
                forall|k: int| 0 <= k < i ==> is_method_byte(src@[k]),
                name@ == src@.subrange(0, i as int).map_values(|b: u8| b as char),
            decreases n - i,
        {
            let b = *vstd::slice::slice_index_get(src, i);
            if !byte_is_method_char(b) {
                return Err(String::from_str("invalid method"));
            }
            push_char(&mut name, b as char);
            proof {
                assert(name@ =~= src@.subrange(0, i as int + 1).map_values(|b: u8| b as char));
            }
            i += 1;
        }
        proof {
            assert(src@.subrange(0, n as int) =~= src@);
        }
        Ok(Method::Custom(name))
    }
}

/// Byte-level test matching `is_method_byte`.
fn byte_is_method_char(b: u8) -> (r: bool)
    ensures
        r == is_method_byte(b),
{
    b == 33 || (35 <= b && b <= 39) || b == 42 || b == 43 || b == 45 || b == 46 || (48 <= b && b
        <= 57) || (65 <= b && b <= 90) || (94 <= b && b <= 96) || (97 <= b && b <= 122) || b == 124
        || b == 126
}

} // verus!
