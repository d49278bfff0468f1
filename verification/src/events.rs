//! The two vocabularies of the notification interface: the events that can be
//! watched and reported, and the answers to a pending permission request.
use crate::c_enum::{EnumValues, Flag, FlagSet};
use crate::kernel;
use vstd::prelude::*;

verus! {

/// The event flags of the watch and notification mask.
#[derive(Clone, Copy, Debug, PartialEq, Eq)]
pub struct FanEvents;

impl EnumValues for FanEvents {
    open spec fn spec_values() -> Seq<Flag> {
        seq![
            Flag { name: "FAN_ACCESS", bits: 0x0000_0001 },
            Flag { name: "FAN_MODIFY", bits: 0x0000_0002 },
            Flag { name: "FAN_CLOSE_WRITE", bits: 0x0000_0008 },
            Flag { name: "FAN_CLOSE_NOWRITE", bits: 0x0000_0010 },
            Flag { name: "FAN_OPEN", bits: 0x0000_0020 },
            Flag { name: "FAN_Q_OVERFLOW", bits: 0x0000_4000 },
            Flag { name: "FAN_ACCESS_PERM", bits: 0x0002_0000 },
            Flag { name: "FAN_OPEN_PERM", bits: 0x0001_0000 },
            Flag { name: "FAN_ONDIR", bits: 0x4000_0000 },
            Flag { name: "FAN_EVENT_ON_CHILD", bits: 0x0800_0000 },
        ]
    }

    fn values() -> (set: FlagSet) {
        let flags = vec![
            Flag::new("FAN_ACCESS", kernel::fan_access()),
            Flag::new("FAN_MODIFY", kernel::fan_modify()),
            Flag::new("FAN_CLOSE_WRITE", kernel::fan_close_write()),
            Flag::new("FAN_CLOSE_NOWRITE", kernel::fan_close_nowrite()),
            Flag::new("FAN_OPEN", kernel::fan_open()),
            Flag::new("FAN_Q_OVERFLOW", kernel::fan_q_overflow()),
            Flag::new("FAN_ACCESS_PERM", kernel::fan_access_perm()),
            Flag::new("FAN_OPEN_PERM", kernel::fan_open_perm()),
            Flag::new("FAN_ONDIR", kernel::fan_ondir()),
            Flag::new("FAN_EVENT_ON_CHILD", kernel::fan_event_on_child()),
        ];
        proof {
            Self::lemma_names_distinct();
            assert(flags@ =~= Self::spec_values());
        }
        FlagSet::from_distinct(flags)
    }

    proof fn lemma_names_distinct() {
        let flags = Self::spec_values();
        reveal_strlit("FAN_ACCESS");
        reveal_strlit("FAN_MODIFY");
        reveal_strlit("FAN_CLOSE_WRITE");
        reveal_strlit("FAN_CLOSE_NOWRITE");
        reveal_strlit("FAN_OPEN");
        reveal_strlit("FAN_Q_OVERFLOW");
        reveal_strlit("FAN_ACCESS_PERM");
        reveal_strlit("FAN_OPEN_PERM");
        reveal_strlit("FAN_ONDIR");
        reveal_strlit("FAN_EVENT_ON_CHILD");
        // The length and the fifth character tell every two names apart.
        assert(flags[0].name@.len() == 10 && flags[0].name@[4] == 'A');
        assert(flags[1].name@.len() == 10 && flags[1].name@[4] == 'M');
        assert(flags[2].name@.len() == 15 && flags[2].name@[4] == 'C');
        assert(flags[3].name@.len() == 17 && flags[3].name@[4] == 'C');
        assert(flags[4].name@.len() == 8 && flags[4].name@[4] == 'O');
        assert(flags[5].name@.len() == 14 && flags[5].name@[4] == 'Q');
        assert(flags[6].name@.len() == 15 && flags[6].name@[4] == 'A');
        assert(flags[7].name@.len() == 13 && flags[7].name@[4] == 'O');
        assert(flags[8].name@.len() == 9 && flags[8].name@[4] == 'O');
        assert(flags[9].name@.len() == 18 && flags[9].name@[4] == 'E');
    }
}

/// The answers to a permission request.
#[derive(Clone, Copy, Debug, PartialEq, Eq)]
pub struct FanResponse;

impl EnumValues for FanResponse {
    open spec fn spec_values() -> Seq<Flag> {
        seq![
            Flag { name: "FAN_ALLOW", bits: 0x01 },
            Flag { name: "FAN_DENY", bits: 0x02 },
        ]
    }

    fn values() -> (set: FlagSet) {
        let flags = vec![
            Flag::new("FAN_ALLOW", kernel::fan_allow() as u64),
            Flag::new("FAN_DENY", kernel::fan_deny() as u64),
        ];
        proof {
            Self::lemma_names_distinct();
            assert(flags@ =~= Self::spec_values());
        }
        FlagSet::from_distinct(flags)
    }

    proof fn lemma_names_distinct() {
        let flags = Self::spec_values();
        reveal_strlit("FAN_ALLOW");
        reveal_strlit("FAN_DENY");
        // The names differ in length.
        assert(flags[0].name@.len() == 9);
        assert(flags[1].name@.len() == 8);
    }
}

/// The bits of the events whose operation waits for an answer.
pub open spec fn spec_permission_bits() -> u64 {
    0x0003_0000
}

impl FanEvents {
    /// The bits of the events whose operation the kernel holds until it is
    /// answered: the union of `FAN_OPEN_PERM` and `FAN_ACCESS_PERM`.
    pub fn permission_bits() -> (bits: u64)
        ensures
            bits == spec_permission_bits(),
    {
        let open = kernel::fan_open_perm();
        let access = kernel::fan_access_perm();
        assert(0x0001_0000u64 | 0x0002_0000u64 == 0x0003_0000u64) by (bit_vector);
        open | access
    }
}

} // verus!
