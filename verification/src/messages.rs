//! Fixed-width byte records for the supported payload sizes, and the
//! header and argument of a variable-length publish.
use vstd::prelude::*;

verus! {

/// A record of 8 bytes.
#[derive(Clone, Copy, Debug)]
pub struct Message8 {
    pub data: [u8; 8],
}

impl Default for Message8 {
    fn default() -> (m: Message8)
        ensures
            forall|i: int| 0 <= i < 8 ==> #[trigger] m.data@[i] == 0u8,
    {
        Message8 { data: [0u8; 8] }
    }
}

/// A record of 30 bytes.
#[derive(Clone, Copy, Debug)]
pub struct Message30 {
    pub data: [u8; 30],
}

impl Default for Message30 {
    fn default() -> (m: Message30)
        ensures
            forall|i: int| 0 <= i < 30 ==> #[trigger] m.data@[i] == 0u8,
    {
        Message30 { data: [0u8; 30] }
    }
}

/// A record of 32 bytes.
#[derive(Clone, Copy, Debug)]
pub struct Message32 {
    pub data: [u8; 32],
}

impl Default for Message32 {
    fn default() -> (m: Message32)
        ensures
            forall|i: int| 0 <= i < 32 ==> #[trigger] m.data@[i] == 0u8,
    {
        Message32 { data: [0u8; 32] }
    }
}

/// A record of 56 bytes.
#[derive(Clone, Copy, Debug)]
pub struct Message56 {
    pub data: [u8; 56],
}

impl Default for Message56 {
    fn default() -> (m: Message56)
        ensures
            forall|i: int| 0 <= i < 56 ==> #[trigger] m.data@[i] == 0u8,
    {
        Message56 { data: [0u8; 56] }
    }
}

/// A record of 120 bytes.
#[derive(Clone, Copy, Debug)]
pub struct Message120 {
    pub data: [u8; 120],
}

impl Default for Message120 {
    fn default() -> (m: Message120)
        ensures
            forall|i: int| 0 <= i < 120 ==> #[trigger] m.data@[i] == 0u8,
    {
        Message120 { data: [0u8; 120] }
    }
}

/// A record of 248 bytes.
#[derive(Clone, Copy, Debug)]
pub struct Message248 {
    pub data: [u8; 248],
}

impl Default for Message248 {
    fn default() -> (m: Message248)
        ensures
            forall|i: int| 0 <= i < 248 ==> #[trigger] m.data@[i] == 0u8,
    {
        Message248 { data: [0u8; 248] }
    }
}

/// A record of 504 bytes.
#[derive(Clone, Copy, Debug)]
pub struct Message504 {
    pub data: [u8; 504],
}

impl Default for Message504 {
    fn default() -> (m: Message504)
        ensures
            forall|i: int| 0 <= i < 504 ==> #[trigger] m.data@[i] == 0u8,
    {
        Message504 { data: [0u8; 504] }
    }
}

/// A record of 1016 bytes.
#[derive(Clone, Copy, Debug)]
pub struct Message1016 {
    pub data: [u8; 1016],
}

impl Default for Message1016 {
    fn default() -> (m: Message1016)
        ensures
            forall|i: int| 0 <= i < 1016 ==> #[trigger] m.data@[i] == 0u8,
    {
        Message1016 { data: [0u8; 1016] }
    }
}

/// A record of 2040 bytes.
#[derive(Clone, Copy, Debug)]
pub struct Message2040 {
    pub data: [u8; 2040],
}

impl Default for Message2040 {
    fn default() -> (m: Message2040)
        ensures
            forall|i: int| 0 <= i < 2040 ==> #[trigger] m.data@[i] == 0u8,
    {
        Message2040 { data: [0u8; 2040] }
    }
}

/// A record of 4088 bytes.
#[derive(Clone, Copy, Debug)]
pub struct Message4088 {
    pub data: [u8; 4088],
}

impl Default for Message4088 {
    fn default() -> (m: Message4088)
        ensures
            forall|i: int| 0 <= i < 4088 ==> #[trigger] m.data@[i] == 0u8,
    {
        Message4088 { data: [0u8; 4088] }
    }
}

/// A record of 1656 bytes.
#[derive(Clone, Copy, Debug)]
pub struct Message1656 {
    pub data: [u8; 1656],
}

impl Default for Message1656 {
    fn default() -> (m: Message1656)
        ensures
            forall|i: int| 0 <= i < 1656 ==> #[trigger] m.data@[i] == 0u8,
    {
        Message1656 { data: [0u8; 1656] }
    }
}

/// A record of 7224 bytes.
#[derive(Clone, Copy, Debug)]
pub struct Message7224 {
    pub data: [u8; 7224],
}

impl Default for Message7224 {
    fn default() -> (m: Message7224)
        ensures
            forall|i: int| 0 <= i < 7224 ==> #[trigger] m.data@[i] == 0u8,
    {
        Message7224 { data: [0u8; 7224] }
    }
}

/// The header in front of a variable-length message.
pub struct MessageHeader {
    pub id: i64,
    pub correlation_id: i64,
    pub length: u16,
    pub msg_type: u16,
}

/// A message handed to a publish: its header, its content and both lengths.
pub struct PublishArg<'a> {
    pub header: &'a MessageHeader,
    pub content: &'a [u8],
    pub header_len: i32,
    pub content_len: i32,
    pub producer_id: i32,
}

} // verus!
