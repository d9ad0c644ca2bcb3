//! Section codes of the map list.
use vstd::prelude::*;

verus! {

pub const HEADER_ITEM: u16 = 0x0000;
pub const STRING_ID_ITEM: u16 = 0x0001;
pub const TYPE_ID_ITEM: u16 = 0x0002;
pub const PROTO_ID_ITEM: u16 = 0x0003;
pub const FIELD_ID_ITEM: u16 = 0x0004;
pub const METHOD_ID_ITEM: u16 = 0x0005;
pub const CLASS_DEF_ITEM: u16 = 0x0006;
pub const CALL_SITE_ID_ITEM: u16 = 0x0007;
pub const METHOD_HANDLE_ITEM: u16 = 0x0008;
pub const MAP_LIST: u16 = 0x1000;
pub const TYPE_LIST: u16 = 0x1001;
pub const ANNOTATION_SET_REF_LIST: u16 = 0x1002;
pub const ANNOTATION_SET_ITEM: u16 = 0x1003;
pub const CLASS_DATA_ITEM: u16 = 0x2000;
pub const CODE_ITEM: u16 = 0x2001;
pub const STRING_DATA_ITEM: u16 = 0x2002;
pub const DEBUG_INFO_ITEM: u16 = 0x2003;
pub const ANNOTATION_ITEM: u16 = 0x2004;
pub const ENCODED_ARRAY_ITEM: u16 = 0x2005;
pub const ANNOTATION_DIRECTORY_ITEM: u16 = 0x2006;

} // verus!
