//! The tools offered to the model: each tool's description and JSON Schema,
//! the definitions sent for an allow list, and their Anthropic form.

use vstd::prelude::*;
use crate::commit_link::strs;
use crate::text::{chars_of, owned, seq_eq};

verus! {

/// A function tool as offered to the model (`parameters` is JSON Schema
/// text).
#[derive(Debug, Clone)]
pub struct ToolDefinitionFunction {
    pub name: String,
    pub description: String,
    pub parameters: String,
}

/// A tool definition (`kind` is always `function`).
#[derive(Debug, Clone)]
pub struct ToolDefinition {
    pub kind: String,
    pub function: ToolDefinitionFunction,
}

/// The description and JSON Schema text of each known tool.
pub open spec fn tool_schema_spec(name: Seq<char>) -> Option<(Seq<char>, Seq<char>)> {
    if name == "get_tasks"@ {
        Some(("获取当前用户在禅道指派给自己的全部任务列表（去掉已关闭/取消的）。当用户提到做了什么工作时，先用此工具查匹配的任务 ID，再调用 prepare-log-task-effort。"@, "{\"type\":\"object\",\"properties\":{},\"additionalProperties\":false}"@))
    } else if name == "get_today_tasks"@ {
        Some(("获取今天截止的任务列表"@, "{\"type\":\"object\",\"properties\":{},\"additionalProperties\":false}"@))
    } else if name == "get_task_detail"@ {
        Some(("获取单个任务的详细信息"@, "{\"type\":\"object\",\"properties\":{\"id\":{\"type\":\"string\",\"description\":\"任务 ID\"}},\"required\":[\"id\"],\"additionalProperties\":false}"@))
    } else if name == "get_task_commits"@ {
        Some(("关联禅道任务与本地 git 提交。按业务线关键词与任务名做软关联，并识别 commit message 中的 #任务号 做精确关联。"@, "{\"type\":\"object\",\"properties\":{\"range\":{\"type\":\"string\",\"enum\":[\"today\",\"yesterday\",\"thisWeek\",\"lastWeek\",\"last7days\",\"last30days\",\"thisMonth\",\"all\"]},\"since\":{\"type\":\"string\"},\"until\":{\"type\":\"string\"},\"rootDir\":{\"type\":[\"string\",\"array\"],\"items\":{\"type\":\"string\"}},\"includeBody\":{\"type\":\"boolean\"},\"taskIds\":{\"type\":\"array\",\"items\":{\"type\":[\"string\",\"number\"]}}},\"additionalProperties\":false}"@))
    } else if name == "analyze_risk"@ {
        Some(("分析所有任务的风险（延期、高优先级、依赖）。useLlm=true 时用 LLM 把计数提示升级为具体建议。"@, "{\"type\":\"object\",\"properties\":{\"useLlm\":{\"type\":\"boolean\"}},\"additionalProperties\":false}"@))
    } else if name == "get_daily_review"@ {
        Some(("生成今日工作复盘：基于本地 commit 与禅道任务关联，输出推进任务、业务线分布、需要更新状态的任务，并附带纯文本日报草稿。"@, "{\"type\":\"object\",\"properties\":{\"range\":{\"type\":\"string\",\"enum\":[\"today\",\"yesterday\",\"thisWeek\",\"lastWeek\",\"last7days\"]},\"since\":{\"type\":\"string\"},\"until\":{\"type\":\"string\"},\"date\":{\"type\":\"string\"},\"hoursPerWorkDay\":{\"type\":\"number\"},\"useLlm\":{\"type\":\"boolean\"}},\"additionalProperties\":false}"@))
    } else if name == "get_efforts"@ {
        Some(("查询帆软报表中的工时明细。可传 range（today/yesterday/lastWeek/thisWeek/thisMonth/thisYear），也可传 begin/end 精确日期；返回每条工时记录及合计。"@, "{\"type\":\"object\",\"properties\":{\"range\":{\"type\":\"string\",\"enum\":[\"today\",\"yesterday\",\"lastWeek\",\"thisWeek\",\"thisMonth\",\"thisYear\"],\"description\":\"常用日期范围。用户说今天/昨天/上周/本周/本月/今年时优先传这个字段。\"},\"begin\":{\"type\":\"string\",\"description\":\"开始日期，格式 YYYY-MM-DD\"},\"end\":{\"type\":\"string\",\"description\":\"结束日期，格式 YYYY-MM-DD\"},\"realName\":{\"type\":\"string\",\"description\":\"中文姓名，用于过滤本人数据。不传则使用配置中的默认值\"}},\"additionalProperties\":false}"@))
    } else if name == "get_effort_report"@ {
        Some(("生成长周期工作汇报，输出完整文字正文和数据附录。适用于本月、本季度、近半年、本年以及自定义较长范围。"@, "{\"type\":\"object\",\"properties\":{\"range\":{\"type\":\"string\",\"enum\":[\"thisMonth\",\"thisQuarter\",\"last6Months\",\"thisYear\"],\"description\":\"长周期范围\"},\"begin\":{\"type\":\"string\",\"description\":\"开始日期，格式 YYYY-MM-DD\"},\"end\":{\"type\":\"string\",\"description\":\"结束日期，格式 YYYY-MM-DD\"},\"realName\":{\"type\":\"string\",\"description\":\"中文姓名，用于过滤本人数据\"}},\"additionalProperties\":false}"@))
    } else if name == "prepare-log-task-effort"@ {
        Some(("准备给禅道任务登记工时，但不直接写入。需要任务 ID、工时数和工作内容描述，可选传任务名称；返回待用户确认的写入建议。"@, "{\"type\":\"object\",\"properties\":{\"taskId\":{\"type\":\"string\",\"description\":\"禅道任务 ID\"},\"taskName\":{\"type\":\"string\",\"description\":\"任务名称（可选，填入后用户不用自己去查任务号）\"},\"hours\":{\"type\":\"number\",\"description\":\"工时数，必须为正数\"},\"work\":{\"type\":\"string\",\"description\":\"工作内容描述\"},\"date\":{\"type\":\"string\",\"description\":\"日期，格式 YYYY-MM-DD，不传则默认今天\"}},\"required\":[\"taskId\",\"hours\",\"work\"],\"additionalProperties\":false}"@))
    } else if name == "log-task-effort"@ {
        Some(("给禅道任务登记工时。需要任务 ID、工时数和工作内容描述。可选指定日期（默认今天）。"@, "{\"type\":\"object\",\"properties\":{\"taskId\":{\"type\":\"string\",\"description\":\"禅道任务 ID\"},\"hours\":{\"type\":\"number\",\"description\":\"工时数，必须为正数\"},\"work\":{\"type\":\"string\",\"description\":\"工作内容描述\"},\"date\":{\"type\":\"string\",\"description\":\"日期，格式 YYYY-MM-DD，不传则默认今天\"}},\"required\":[\"taskId\",\"hours\",\"work\"],\"additionalProperties\":false}"@))
    } else if name == "cost_report_preview"@ {
        Some(("项目成本查询预览：轻量接口，只返回项目团队成员列表，不计算工时和成本。用于在正式查询前让用户确认项目名是否正确。必须先调此工具确认，再调 cost_report。"@, "{\"type\":\"object\",\"properties\":{\"projectName\":{\"type\":\"string\",\"description\":\"禅道项目名称\"}},\"required\":[\"projectName\"],\"additionalProperties\":false}"@))
    } else if name == "cost_report"@ {
        Some(("查询指定项目的团队成本分析：从禅道拉取该项目全部任务的团队工时数据，按人聚合工时×时薪，返回文本报告（含条形图、人均工时、成本汇总）。必须先用 cost_report_preview 确认项目名无误后才能调用此工具。传 includeOvertime=true 可拆分正常/加班工时（需要逐任务拉工作日志，较慢）。"@, "{\"type\":\"object\",\"properties\":{\"projectName\":{\"type\":\"string\",\"description\":\"禅道项目名称，必须精确匹配\"},\"includeOvertime\":{\"type\":\"boolean\",\"description\":\"是否拆分正常/加班工时，默认 false（较快）。设为 true 会逐任务拉工作日志按日期拆分，较慢但能看到加班数据。\"}},\"required\":[\"projectName\"],\"additionalProperties\":false}"@))
    } else {
        None
    }
}

/// The description and JSON Schema (as JSON text) of a tool the agent may
/// be offered; `None` for an unknown tool.
pub fn tool_schema(name: &str) -> (r: Option<(String, String)>)
    ensures
        match r {
            Some((d, s)) => tool_schema_spec(name@) == Some((d@, s@)),
            None => tool_schema_spec(name@).is_none(),
        },
{
    let v = chars_of(name);
    if seq_eq(&v, &chars_of("get_tasks")) {
        Some((owned("获取当前用户在禅道指派给自己的全部任务列表（去掉已关闭/取消的）。当用户提到做了什么工作时，先用此工具查匹配的任务 ID，再调用 prepare-log-task-effort。"), owned("{\"type\":\"object\",\"properties\":{},\"additionalProperties\":false}")))
    } else if seq_eq(&v, &chars_of("get_today_tasks")) {
        Some((owned("获取今天截止的任务列表"), owned("{\"type\":\"object\",\"properties\":{},\"additionalProperties\":false}")))
    } else if seq_eq(&v, &chars_of("get_task_detail")) {
        Some((owned("获取单个任务的详细信息"), owned("{\"type\":\"object\",\"properties\":{\"id\":{\"type\":\"string\",\"description\":\"任务 ID\"}},\"required\":[\"id\"],\"additionalProperties\":false}")))
    } else if seq_eq(&v, &chars_of("get_task_commits")) {
        Some((owned("关联禅道任务与本地 git 提交。按业务线关键词与任务名做软关联，并识别 commit message 中的 #任务号 做精确关联。"), owned("{\"type\":\"object\",\"properties\":{\"range\":{\"type\":\"string\",\"enum\":[\"today\",\"yesterday\",\"thisWeek\",\"lastWeek\",\"last7days\",\"last30days\",\"thisMonth\",\"all\"]},\"since\":{\"type\":\"string\"},\"until\":{\"type\":\"string\"},\"rootDir\":{\"type\":[\"string\",\"array\"],\"items\":{\"type\":\"string\"}},\"includeBody\":{\"type\":\"boolean\"},\"taskIds\":{\"type\":\"array\",\"items\":{\"type\":[\"string\",\"number\"]}}},\"additionalProperties\":false}")))
    } else if seq_eq(&v, &chars_of("analyze_risk")) {
        Some((owned("分析所有任务的风险（延期、高优先级、依赖）。useLlm=true 时用 LLM 把计数提示升级为具体建议。"), owned("{\"type\":\"object\",\"properties\":{\"useLlm\":{\"type\":\"boolean\"}},\"additionalProperties\":false}")))
    } else if seq_eq(&v, &chars_of("get_daily_review")) {
        Some((owned("生成今日工作复盘：基于本地 commit 与禅道任务关联，输出推进任务、业务线分布、需要更新状态的任务，并附带纯文本日报草稿。"), owned("{\"type\":\"object\",\"properties\":{\"range\":{\"type\":\"string\",\"enum\":[\"today\",\"yesterday\",\"thisWeek\",\"lastWeek\",\"last7days\"]},\"since\":{\"type\":\"string\"},\"until\":{\"type\":\"string\"},\"date\":{\"type\":\"string\"},\"hoursPerWorkDay\":{\"type\":\"number\"},\"useLlm\":{\"type\":\"boolean\"}},\"additionalProperties\":false}")))
    } else if seq_eq(&v, &chars_of("get_efforts")) {
        Some((owned("查询帆软报表中的工时明细。可传 range（today/yesterday/lastWeek/thisWeek/thisMonth/thisYear），也可传 begin/end 精确日期；返回每条工时记录及合计。"), owned("{\"type\":\"object\",\"properties\":{\"range\":{\"type\":\"string\",\"enum\":[\"today\",\"yesterday\",\"lastWeek\",\"thisWeek\",\"thisMonth\",\"thisYear\"],\"description\":\"常用日期范围。用户说今天/昨天/上周/本周/本月/今年时优先传这个字段。\"},\"begin\":{\"type\":\"string\",\"description\":\"开始日期，格式 YYYY-MM-DD\"},\"end\":{\"type\":\"string\",\"description\":\"结束日期，格式 YYYY-MM-DD\"},\"realName\":{\"type\":\"string\",\"description\":\"中文姓名，用于过滤本人数据。不传则使用配置中的默认值\"}},\"additionalProperties\":false}")))
    } else if seq_eq(&v, &chars_of("get_effort_report")) {
        Some((owned("生成长周期工作汇报，输出完整文字正文和数据附录。适用于本月、本季度、近半年、本年以及自定义较长范围。"), owned("{\"type\":\"object\",\"properties\":{\"range\":{\"type\":\"string\",\"enum\":[\"thisMonth\",\"thisQuarter\",\"last6Months\",\"thisYear\"],\"description\":\"长周期范围\"},\"begin\":{\"type\":\"string\",\"description\":\"开始日期，格式 YYYY-MM-DD\"},\"end\":{\"type\":\"string\",\"description\":\"结束日期，格式 YYYY-MM-DD\"},\"realName\":{\"type\":\"string\",\"description\":\"中文姓名，用于过滤本人数据\"}},\"additionalProperties\":false}")))
    } else if seq_eq(&v, &chars_of("prepare-log-task-effort")) {
        Some((owned("准备给禅道任务登记工时，但不直接写入。需要任务 ID、工时数和工作内容描述，可选传任务名称；返回待用户确认的写入建议。"), owned("{\"type\":\"object\",\"properties\":{\"taskId\":{\"type\":\"string\",\"description\":\"禅道任务 ID\"},\"taskName\":{\"type\":\"string\",\"description\":\"任务名称（可选，填入后用户不用自己去查任务号）\"},\"hours\":{\"type\":\"number\",\"description\":\"工时数，必须为正数\"},\"work\":{\"type\":\"string\",\"description\":\"工作内容描述\"},\"date\":{\"type\":\"string\",\"description\":\"日期，格式 YYYY-MM-DD，不传则默认今天\"}},\"required\":[\"taskId\",\"hours\",\"work\"],\"additionalProperties\":false}")))
    } else if seq_eq(&v, &chars_of("log-task-effort")) {
        Some((owned("给禅道任务登记工时。需要任务 ID、工时数和工作内容描述。可选指定日期（默认今天）。"), owned("{\"type\":\"object\",\"properties\":{\"taskId\":{\"type\":\"string\",\"description\":\"禅道任务 ID\"},\"hours\":{\"type\":\"number\",\"description\":\"工时数，必须为正数\"},\"work\":{\"type\":\"string\",\"description\":\"工作内容描述\"},\"date\":{\"type\":\"string\",\"description\":\"日期，格式 YYYY-MM-DD，不传则默认今天\"}},\"required\":[\"taskId\",\"hours\",\"work\"],\"additionalProperties\":false}")))
    } else if seq_eq(&v, &chars_of("cost_report_preview")) {
        Some((owned("项目成本查询预览：轻量接口，只返回项目团队成员列表，不计算工时和成本。用于在正式查询前让用户确认项目名是否正确。必须先调此工具确认，再调 cost_report。"), owned("{\"type\":\"object\",\"properties\":{\"projectName\":{\"type\":\"string\",\"description\":\"禅道项目名称\"}},\"required\":[\"projectName\"],\"additionalProperties\":false}")))
    } else if seq_eq(&v, &chars_of("cost_report")) {
        Some((owned("查询指定项目的团队成本分析：从禅道拉取该项目全部任务的团队工时数据，按人聚合工时×时薪，返回文本报告（含条形图、人均工时、成本汇总）。必须先用 cost_report_preview 确认项目名无误后才能调用此工具。传 includeOvertime=true 可拆分正常/加班工时（需要逐任务拉工作日志，较慢）。"), owned("{\"type\":\"object\",\"properties\":{\"projectName\":{\"type\":\"string\",\"description\":\"禅道项目名称，必须精确匹配\"},\"includeOvertime\":{\"type\":\"boolean\",\"description\":\"是否拆分正常/加班工时，默认 false（较快）。设为 true 会逐任务拉工作日志按日期拆分，较慢但能看到加班数据。\"}},\"required\":[\"projectName\"],\"additionalProperties\":false}")))
    } else {
        None
    }
}

/// A definition as plain values: kind, name, description, schema.
pub open spec fn def_view(d: ToolDefinition) -> (Seq<char>, Seq<char>, Seq<char>, Seq<char>) {
    (d.kind@, d.function.name@, d.function.description@, d.function.parameters@)
}

/// The definitions for an allow list: one per known tool, in list order;
/// unknown names are left out.
pub open spec fn definitions_spec(allowed: Seq<Seq<char>>) -> Seq<(Seq<char>, Seq<char>, Seq<char>, Seq<char>)>
    decreases allowed.len(),
{
    if allowed.len() == 0 {
        Seq::empty()
    } else {
        let n = allowed.last();
        definitions_spec(allowed.drop_last()) + match tool_schema_spec(n) {
            Some((d, s)) => seq![("function"@, n, d, s)],
            None => Seq::empty(),
        }
    }
}

/// The tool definitions sent for an allow list.
pub fn build_tool_definitions(allowed: &Vec<String>) -> (r: Vec<ToolDefinition>)
    ensures
        r@.map_values(|d: ToolDefinition| def_view(d)) == definitions_spec(strs(*allowed)),
{
    let mut out: Vec<ToolDefinition> = Vec::new();
    let mut i: usize = 0;
    assert(strs(*allowed).take(0) =~= Seq::<Seq<char>>::empty());
    while i < allowed.len()
        invariant
            i <= allowed.len(),
            out@.map_values(|d: ToolDefinition| def_view(d)) == definitions_spec(strs(*allowed).take(i as int)),
        decreases allowed.len() - i,
    {
        let name = &allowed[i];
        assert(strs(*allowed).take(i + 1).drop_last() =~= strs(*allowed).take(i as int));
        assert(strs(*allowed).take(i + 1).last() == name@);
        let ghost before = out@.map_values(|d: ToolDefinition| def_view(d));
        match tool_schema(name.as_str()) {
            Some((d, s)) => {
                let def = ToolDefinition {
                    kind: owned("function"),
                    function: ToolDefinitionFunction { name: name.clone(), description: d, parameters: s },
                };
                let ghost dv = def_view(def);
                out.push(def);
                assert(out@.map_values(|d: ToolDefinition| def_view(d)) =~= before + seq![dv]);
            },
            None => {
                assert(out@.map_values(|d: ToolDefinition| def_view(d)) =~= before + Seq::empty());
            },
        }
        i = i + 1;
    }
    assert(strs(*allowed).take(allowed.len() as int) =~= strs(*allowed));
    out
}

/// A tool in the Anthropic request form: name, description and the schema
/// under `input_schema`.
#[derive(Debug, Clone)]
pub struct AnthropicTool {
    pub name: String,
    pub description: String,
    pub input_schema: String,
}

/// The tools in Anthropic form, in order.
pub fn tools_to_anthropic_format(tools: &Vec<ToolDefinition>) -> (r: Vec<AnthropicTool>)
    ensures
        r.len() == tools.len(),
        forall|k: int| 0 <= k < r.len() ==> (#[trigger] r@[k]).name@ == tools@[k].function.name@ && r@[k].description@
            == tools@[k].function.description@ && r@[k].input_schema@ == tools@[k].function.parameters@,
{
    let mut out: Vec<AnthropicTool> = Vec::new();
    let mut i: usize = 0;
    while i < tools.len()
        invariant
            i <= tools.len(),
            out.len() == i,
            forall|k: int| 0 <= k < i ==> (#[trigger] out@[k]).name@ == tools@[k].function.name@ && out@[k].description@
                == tools@[k].function.description@ && out@[k].input_schema@ == tools@[k].function.parameters@,
        decreases tools.len() - i,
    {
        let t = &tools[i];
        out.push(AnthropicTool {
            name: t.function.name.clone(),
            description: t.function.description.clone(),
            input_schema: t.function.parameters.clone(),
        });
        i = i + 1;
    }
    out
}

} // verus!
