use crate::actor_header::{spec_ser_actor_header, write_actor_header, ActorHeader};
use crate::body::{body_wf, spec_ser_body, write_blueprint_body, BlueprintBody};
use crate::body_header::{spec_ser_body_header, write_body_header, BodyHeader};
use crate::fstring::{spec_ser_fstring, write_fstring, FStr};
use crate::object_ref::{spec_ser_object_ref, write_object_ref, ObjectRef};
use crate::property_list::{
    prop_item_wf, sentinel_property, spec_ser_prop, spec_ser_props, wf_props, write_property,
    write_property_list, Property, PropertyList,
};
use crate::resource::{spec_ser_resource, write_resource, Resource};
use vstd::bytes::{spec_u32_to_le_bytes, spec_u64_to_le_bytes};
use vstd::prelude::*;

verus! {

/// Serialization into a byte buffer. Every implementation appends exactly
/// the value's wire bytes; `wire_wf` says when the value's parts fit
/// their length fields.
pub trait BPWrite {
    /// The value's bytes on the wire.
    spec fn wire_bytes(&self) -> Seq<u8>;

    /// When the value can be written.
    spec fn wire_wf(&self) -> bool;

    /// Appends the value's wire bytes to `out`.
    fn bp_write(&self, out: &mut Vec<u8>)
        requires
            self.wire_wf(),
        ensures
            final(out)@ == old(out)@ + self.wire_bytes(),
    ;
}

impl BPWrite for u8 {
    open spec fn wire_bytes(&self) -> Seq<u8> {
        seq![*self]
    }

    open spec fn wire_wf(&self) -> bool {
        true
    }

    fn bp_write(&self, out: &mut Vec<u8>) {
        crate::primitive::write_u8(out, *self);
    }
}

impl BPWrite for u32 {
    open spec fn wire_bytes(&self) -> Seq<u8> {
        spec_u32_to_le_bytes(*self)
    }

    open spec fn wire_wf(&self) -> bool {
        true
    }

    fn bp_write(&self, out: &mut Vec<u8>) {
        crate::primitive::write_u32(out, *self);
    }
}

impl BPWrite for u64 {
    open spec fn wire_bytes(&self) -> Seq<u8> {
        spec_u64_to_le_bytes(*self)
    }

    open spec fn wire_wf(&self) -> bool {
        true
    }

    fn bp_write(&self, out: &mut Vec<u8>) {
        crate::primitive::write_u64(out, *self);
    }
}

impl BPWrite for i32 {
    open spec fn wire_bytes(&self) -> Seq<u8> {
        spec_u32_to_le_bytes(*self as u32)
    }

    open spec fn wire_wf(&self) -> bool {
        true
    }

    fn bp_write(&self, out: &mut Vec<u8>) {
        crate::primitive::write_i32(out, *self);
    }
}

impl BPWrite for FStr {
    open spec fn wire_bytes(&self) -> Seq<u8> {
        spec_ser_fstring(self@)
    }

    open spec fn wire_wf(&self) -> bool {
        self@.len() <= u32::MAX
    }

    fn bp_write(&self, out: &mut Vec<u8>) {
        write_fstring(out, self);
    }
}

impl BPWrite for Resource {
    open spec fn wire_bytes(&self) -> Seq<u8> {
        spec_ser_resource(self@)
    }

    open spec fn wire_wf(&self) -> bool {
        self@.path.len() + 1 <= u32::MAX
    }

    fn bp_write(&self, out: &mut Vec<u8>) {
        write_resource(out, self);
    }
}

impl BPWrite for BodyHeader {
    open spec fn wire_bytes(&self) -> Seq<u8> {
        spec_ser_body_header(*self)
    }

    open spec fn wire_wf(&self) -> bool {
        true
    }

    fn bp_write(&self, out: &mut Vec<u8>) {
        write_body_header(out, self);
    }
}

impl BPWrite for ObjectRef {
    open spec fn wire_bytes(&self) -> Seq<u8> {
        spec_ser_object_ref(self@)
    }

    open spec fn wire_wf(&self) -> bool {
        self@.level_name.len() <= u32::MAX && self@.path_name.len() <= u32::MAX
    }

    fn bp_write(&self, out: &mut Vec<u8>) {
        write_object_ref(out, self);
    }
}

impl BPWrite for ActorHeader {
    open spec fn wire_bytes(&self) -> Seq<u8> {
        spec_ser_actor_header(self@)
    }

    open spec fn wire_wf(&self) -> bool {
        self@.type_path.len() <= u32::MAX && self@.root_object.len() <= u32::MAX
            && self@.instance_name.len() <= u32::MAX
    }

    fn bp_write(&self, out: &mut Vec<u8>) {
        write_actor_header(out, self);
    }
}

impl BPWrite for Property {
    open spec fn wire_bytes(&self) -> Seq<u8> {
        spec_ser_prop(self@)
    }

    open spec fn wire_wf(&self) -> bool {
        self@ == sentinel_property() || prop_item_wf(self@)
    }

    fn bp_write(&self, out: &mut Vec<u8>) {
        write_property(out, self);
    }
}

impl BPWrite for PropertyList {
    open spec fn wire_bytes(&self) -> Seq<u8> {
        spec_ser_props(self@)
    }

    open spec fn wire_wf(&self) -> bool {
        wf_props(self@)
    }

    fn bp_write(&self, out: &mut Vec<u8>) {
        write_property_list(out, self);
    }
}

impl BPWrite for BlueprintBody {
    open spec fn wire_bytes(&self) -> Seq<u8> {
        spec_ser_body(self@)
    }

    open spec fn wire_wf(&self) -> bool {
        body_wf(self@)
    }

    fn bp_write(&self, out: &mut Vec<u8>) {
        write_blueprint_body(out, self);
    }
}

} // verus!
