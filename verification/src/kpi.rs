//! The KPI provider: a fixed, ordered list of four dashboard records.
//! Stateless and deterministic; every call returns the same data.

use vstd::prelude::*;
use vstd::string::StringExecFns;

verus! {

/// One dashboard record. All four fields are display strings: `value`
/// is pre-formatted (no arithmetic is ever performed on it), and
/// `icon` and `color` are symbolic names the front-end maps to its
/// rendering vocabulary.
#[derive(Debug, Clone, PartialEq, Eq)]
pub struct Kpi {
    pub title: String,
    pub value: String,
    pub icon: String,
    pub color: String,
}

/// The mathematical model of a record: its four fields as character
/// sequences.
#[verifier::ext_equal]
pub ghost struct KpiView {
    pub title: Seq<char>,
    pub value: Seq<char>,
    pub icon: Seq<char>,
    pub color: Seq<char>,
}

impl View for Kpi {
    type V = KpiView;

    open spec fn view(&self) -> KpiView {
        KpiView {
            title: self.title@,
            value: self.value@,
            icon: self.icon@,
            color: self.color@,
        }
    }
}

impl DeepView for Kpi {
    type V = KpiView;

    open spec fn deep_view(&self) -> KpiView {
        self.view()
    }
}

/// The fixed dashboard contents: exactly four records, in this order.
pub open spec fn spec_dashboard_kpis() -> Seq<KpiView> {
    seq![
        KpiView {
            title: "New Users"@,
            value: "1,250"@,
            icon: "Users"@,
            color: "indigo"@,
        },
        KpiView {
            title: "Monthly Revenue"@,
            value: "R$ 45.8k"@,
            icon: "BarChart"@,
            color: "emerald"@,
        },
        KpiView {
            title: "Completed Tasks"@,
            value: "87%"@,
            icon: "CheckCircle"@,
            color: "blue"@,
        },
        KpiView {
            title: "Critical Alerts"@,
            value: "3"@,
            icon: "AlertCircle"@,
            color: "red"@,
        },
    ]
}

/// Returns the dashboard's four KPI records, freshly constructed, in
/// the fixed order new-users, monthly-revenue, completed-tasks,
/// critical-alerts.
pub fn get_dashboard_kpis() -> (r: Vec<Kpi>)
    ensures
        r.deep_view() == spec_dashboard_kpis(),
        r@.len() == 4,
{
    let mut r: Vec<Kpi> = Vec::new();
    r.push(Kpi {
        title: String::from_str("New Users"),
        value: String::from_str("1,250"),
        icon: String::from_str("Users"),
        color: String::from_str("indigo"),
    });
    r.push(Kpi {
        title: String::from_str("Monthly Revenue"),
        value: String::from_str("R$ 45.8k"),
        icon: String::from_str("BarChart"),
        color: String::from_str("emerald"),
    });
    r.push(Kpi {
        title: String::from_str("Completed Tasks"),
        value: String::from_str("87%"),
        icon: String::from_str("CheckCircle"),
        color: String::from_str("blue"),
    });
    r.push(Kpi {
        title: String::from_str("Critical Alerts"),
        value: String::from_str("3"),
        icon: String::from_str("AlertCircle"),
        color: String::from_str("red"),
    });
    proof {
        assert(r.deep_view() =~= spec_dashboard_kpis());
    }
    r
}

/// The provider is idempotent: any two results that meet its contract
/// hold the same records, so repeated calls in one process agree.
pub proof fn lemma_kpis_idempotent(a: Seq<KpiView>, b: Seq<KpiView>)
    requires
        a == spec_dashboard_kpis(),
        b == spec_dashboard_kpis(),
    ensures
        a == b,
{
}

} // verus!
